//! Engine and shell-side tests: the linting driver, diagnostics,
//! environment substitution, invocation preparation, built-in resolution
//! and project integration.

use deacon::is_blank;
use deacon::lint_script;
use deacon::build_invocation;
use deacon::prepare_invocation;
use deacon::resolve_function;
use deacon::substitute_env_var;
use deacon::get_crate_manifest;
use deacon::is_cargo_workspace;
use deacon::is_rust_project;
use deacon::Builtin;
use deacon::Call;
use deacon::Diagnostic;
use deacon::DirEntryInfo;
use deacon::Either;
use deacon::ExpectedToken;
use deacon::Linter;
use deacon::ManifestInfo;
use deacon::ShellError;
use deacon::commands::dir_entry_row;
use deacon::commands::list_dir_row;
use deacon::integrations::rust_integration_badge;

fn owned(items: &[&str]) -> Vec<String> {
    items.iter().map(|s| s.to_string()).collect()
}

#[test]
fn test() {
    println!("{:?}", shell_words::split(r#"C:\s \" \\"#).unwrap());
}

#[test]
fn blank_lines() {
    assert!(is_blank(""));
    assert!(is_blank("  \t \n"));
    assert!(!is_blank(" x "));
}

#[test]
fn driver_single_declaration() {
    let mut linter = Linter::new("session");
    assert!(linter.push_line("func f() {").is_empty());
    assert!(linter.push_line("echo hi").is_empty());
    let out = linter.push_line("}");
    assert_eq!(out.len(), 1);
    match &out[0] {
        Either::A(f) => {
            assert_eq!(f.name, "f");
            assert_eq!(f.body, owned(&["echo hi"]));
        }
        Either::B(d) => panic!("unexpected diagnostic: {:?}", d),
    }
    assert_eq!(linter.finish(), None);
}

#[test]
fn driver_reports_violations() {
    let mut linter = Linter::new("session");
    let out = linter.push_line("func f x() {}");
    assert_eq!(out.len(), 1);
    match &out[0] {
        Either::B(d) => {
            assert_eq!(d.offset, 6);
            assert_eq!(d.expected, ExpectedToken::Char('('));
        }
        Either::A(f) => panic!("unexpected declaration: {:?}", f),
    }
    // the buffer was discarded: a fresh declaration still parses
    let out2 = linter.push_line("func g() {\n}");
    assert_eq!(out2.len(), 1);
    assert!(matches!(&out2[0], Either::A(f) if f.name == "g"));
}

#[test]
fn driver_reports_leftover() {
    let mut linter = Linter::new("session");
    assert!(linter.push_line("func f() {").is_empty());
    let d = linter.finish().expect("incomplete text must be reported");
    // the unterminated block is reported at its opening brace
    assert_eq!(d.offset, 9);
    assert_eq!(d.expected, ExpectedToken::Char('}'));
    assert_eq!(d.source, "session");
    let mut linter2 = Linter::new("session");
    assert!(linter2.push_line("echo hi").is_empty());
    let d2 = linter2.finish().expect("leftover text must be reported");
    assert_eq!(d2.expected, ExpectedToken::Declaration);
    assert_eq!(d2.offset, 7);
}

#[test]
fn lint_whole_script() {
    let (funcs, diags) = lint_script("func a() {\necho 1\n}\n\nfunc b() {\necho 2\n}", "demo");
    assert_eq!(funcs.len(), 2);
    assert_eq!(funcs[0].name, "a");
    assert_eq!(funcs[1].name, "b");
    assert!(diags.is_empty());
}

#[test]
fn lint_unmatched_brace() {
    // an unmatched `{` is reported as a positioned error — at the brace
    // that opened the unterminated block — never a crash
    let (funcs, diags) = lint_script("func a() {\necho 1", "demo");
    assert!(funcs.is_empty());
    assert_eq!(diags.len(), 1);
    assert_eq!(diags[0].expected, ExpectedToken::Char('}'));
    assert_eq!(diags[0].offset, 9);
}

#[test]
fn lint_recovers_after_fault() {
    // a violation yields a diagnostic and the run continues with the
    // next line: the later declaration is still emitted
    let (funcs, diags) = lint_script("func f x() {}\nfunc g() {\necho hi\n}", "demo");
    assert_eq!(diags.len(), 1);
    assert_eq!(diags[0].offset, 6);
    assert_eq!(diags[0].expected, ExpectedToken::Char('('));
    assert_eq!(funcs.len(), 1);
    assert_eq!(funcs[0].name, "g");
}

#[test]
fn lint_offsets_are_absolute() {
    // a fault after an earlier declaration is positioned within the
    // whole script, not within its own declaration text
    let (funcs, diags) = lint_script("func a() {\n}\nfunc b x\n", "demo");
    assert_eq!(funcs.len(), 1);
    assert_eq!(funcs[0].name, "a");
    assert_eq!(diags.len(), 1);
    assert_eq!(diags[0].expected, ExpectedToken::Char('('));
    assert_eq!(diags[0].offset, 19);
}

#[test]
fn render_diagnostics() {
    let (_, diags) = lint_script("func f x() {}", "demo.dc");
    assert_eq!(diags.len(), 1);
    assert_eq!(diags[0].render(), "demo.dc: error at offset 6: expected '('.");
    let hinted = Diagnostic {
        source: "demo.dc".to_string(),
        offset: 10,
        expected: ExpectedToken::Char('\n'),
        note: Some(
            "The '{' character must be followed by a newline, and the '}' character must be after another newline."
                .to_string(),
        ),
    };
    assert_eq!(
        hinted.render(),
        "demo.dc: error at offset 10: expected '\n'. hint: The '{' character must be followed by a newline, and the '}' character must be after another newline."
    );
}

#[test]
fn substitution() {
    let env = vec![
        ("HOME".to_string(), "/root".to_string()),
        ("USER".to_string(), "dev".to_string()),
    ];
    assert_eq!(substitute_env_var("echo ?HOME?/x", &env), "echo /root/x");
    assert_eq!(substitute_env_var("?USER??HOME?", &env), "dev/root");
    // an absent variable keeps its written form
    assert_eq!(substitute_env_var("echo ?MISSING?", &env), "echo ?MISSING?");
    // tokens are joined by single spaces
    assert_eq!(substitute_env_var("a   b", &env), "a b");
    // text without placeholders is unchanged
    assert_eq!(substitute_env_var("plain text", &env), "plain text");
}

#[test]
fn invocations() {
    assert_eq!(
        prepare_invocation("echo a b"),
        Ok(Call { name: "echo".to_string(), args: owned(&["a", "b"]) })
    );
    // quoting is honoured by the shell split
    assert_eq!(
        prepare_invocation("echo 'a b'"),
        Ok(Call { name: "echo".to_string(), args: owned(&["a b"]) })
    );
    // a leading `!` escapes built-in resolution and is stripped
    assert_eq!(
        prepare_invocation("!func --version"),
        Ok(Call { name: "func".to_string(), args: owned(&["--version"]) })
    );
    assert_eq!(prepare_invocation("'unclosed"), Err(ShellError::UnclosedQuotes));
    assert_eq!(prepare_invocation("!"), Err(ShellError::MissingProcessName));
    assert_eq!(build_invocation(vec![]), Err(ShellError::MissingProcessName));
    assert_eq!(
        build_invocation(owned(&["ls", "-l"])),
        Ok(Call { name: "ls".to_string(), args: owned(&["-l"]) })
    );
}

#[test]
fn builtins() {
    assert_eq!(resolve_function("cd /tmp"), Some(Builtin::ChangeDir));
    assert_eq!(resolve_function("devconinfo"), Some(Builtin::DevconInfo));
    assert_eq!(resolve_function("help"), Some(Builtin::Help));
    assert_eq!(resolve_function("ls src"), Some(Builtin::ListDir));
    assert_eq!(resolve_function("grep x"), None);
    // the `!` escape always runs an external process
    assert_eq!(resolve_function("!cd /tmp"), None);
}

#[test]
fn rust_project_detection() {
    assert!(is_rust_project(&vec![false, true, false]));
    assert!(!is_rust_project(&vec![false, false]));
    assert!(!is_rust_project(&vec![]));
    assert!(is_cargo_workspace("[workspace]\nmembers = []\n"));
    assert!(is_cargo_workspace("# top\n   [workspace]\n"));
    assert!(!is_cargo_workspace("[package]\nname = \"x\"\n"));
}

#[test]
fn manifest_walk() {
    let texts = vec![
        None,
        Some("not toml at all [".to_string()),
        Some("[package]\nname = \"demo\"\nversion = \"0.1.0\"\n".to_string()),
    ];
    let info = get_crate_manifest(&texts).expect("a manifest parses");
    assert_eq!(info.package, Some("demo".to_string()));
    assert_eq!(get_crate_manifest(&vec![None, None]), None);
    let workspace_only = vec![Some("[workspace]\nmembers = []\n".to_string())];
    let info2 = get_crate_manifest(&workspace_only).expect("a workspace manifest parses");
    assert_eq!(info2.package, None);
}

#[test]
fn prompt_badges() {
    assert_eq!(rust_integration_badge(true, &None), "[cargo workspace]");
    assert_eq!(
        rust_integration_badge(false, &Some(ManifestInfo { package: Some("demo".to_string()) })),
        "[crate \"demo\"]"
    );
    assert_eq!(
        rust_integration_badge(false, &Some(ManifestInfo { package: None })),
        "[rust project]"
    );
    assert_eq!(rust_integration_badge(false, &None), "[rust project]");
    assert_eq!(deacon::util::prompt_line("dev", "box", "/src"), "dev@box: /src ");
}

#[test]
fn listing_rows() {
    let entry = DirEntryInfo {
        name: "notes.txt".to_string(),
        is_file: true,
        is_dir: false,
        is_symlink: false,
        size: Some(500),
        created: None,
        modified: None,
    };
    let row = dir_entry_row(&entry, None, Some("yesterday".to_string()));
    assert_eq!(row.len(), 5);
    assert_eq!(row[0], "notes.txt");
    assert_eq!(row[1], "File");
    assert_eq!(row[2], "Unavailable");
    assert_eq!(row[3], "yesterday");
    assert_eq!(row[4], "500 B");
    let dir = DirEntryInfo {
        name: "src".to_string(),
        is_file: false,
        is_dir: true,
        is_symlink: false,
        size: None,
        created: None,
        modified: Some((1_600_000_000, 0)),
    };
    let row2 = list_dir_row(&dir);
    assert_eq!(row2[1], "Directory");
    assert_eq!(row2[2], "Unavailable");
    assert_eq!(row2[4], "N/A");
}
