//! Grammar tests: placeholders, calls, declarations, types, variables.

use deacon::parse_env_vars;
use deacon::parse_call;
use deacon::parse_func_declaration;
use deacon::parse_variable_decl;
use deacon::parse_variable_reassignment;
use deacon::Call;
use deacon::DeaconType;
use deacon::ExpectedToken;
use deacon::FnParseError;
use deacon::Variable;

fn owned(items: &[&str]) -> Vec<String> {
    items.iter().map(|s| s.to_string()).collect()
}

#[test]
fn parse_env_var() {
    assert_eq!(parse_env_vars("?"), None);
    assert_eq!(parse_env_vars("??"), Some(owned(&[""])));
    assert_eq!(parse_env_vars("???"), Some(owned(&[""])));
    assert_eq!(parse_env_vars("?hi??"), Some(owned(&["hi"])));
    assert_eq!(parse_env_vars("?__??"), Some(owned(&["__"])));
    assert_eq!(parse_env_vars("?hi???"), Some(owned(&["hi", ""])));
    assert_eq!(parse_env_vars("?gamma_delta?"), Some(owned(&["gamma_delta"])));
    assert_eq!(parse_env_vars("????"), Some(owned(&["", ""])));
    assert_eq!(parse_env_vars("?foo?"), Some(owned(&["foo"])));
    assert_eq!(parse_env_vars("?space??bar?"), Some(owned(&["space", "bar"])));
}

#[test]
fn parse_statements() {
    assert_eq!(
        parse_call("arbitrary_function $x $y"),
        Ok(Call {
            name: "arbitrary_function".to_string(),
            args: owned(&["$x", "$y"]),
        })
    );
    assert_eq!(
        parse_call("arbitrary_function $x $y $z"),
        Ok(Call {
            name: "arbitrary_function".to_string(),
            args: owned(&["$x", "$y", "$z"]),
        })
    );
    assert_eq!(
        parse_call("not command_call $x $y $z"),
        Ok(Call {
            name: "not".to_string(),
            args: owned(&["command_call", "$x", "$y", "$z"]),
        })
    );
}

#[test]
fn parse_function_decls() {
    assert!(parse_func_declaration("func a() {\necho $s\n}").is_ok());
    assert!(parse_func_declaration("func b(s: string) {\necho $s\n}").is_ok());
    assert!(parse_func_declaration("func d(s: string) {\necho $s}").is_ok());
    assert!(parse_func_declaration("func d(s: string) {\necho $s\necho $s\n}").is_ok());
    assert_eq!(parse_func_declaration("func e() {\necho $s\n}").unwrap().0.name, "e");
    assert_eq!(parse_func_declaration("func f() {\necho $s\n}").unwrap().0.name, "f");
}

#[test]
fn parse_types() {
    assert!(DeaconType::try_from("str").is_err());
    assert_eq!(DeaconType::try_from("string"), Ok(DeaconType::String));
    assert_eq!(DeaconType::try_from("int"), Ok(DeaconType::Int));
    assert_eq!(
        DeaconType::try_from("(string, int)"),
        Ok(DeaconType::Tuple(vec![DeaconType::String, DeaconType::Int]))
    );
    // tuples directly in a tuple are not supported.
    assert!(DeaconType::try_from("(string, int, (string, int))").is_err());
}

#[test]
fn parse_variable_decls() {
    assert_eq!(parse_variable_decl("let var = 1").ok(), None);
    assert_eq!(
        parse_variable_decl("let $var = hello").ok(),
        Some(Variable { identifier: "var".to_string(), value: "hello".to_string() })
    );
    assert_eq!(parse_variable_decl("let $ = 1").ok(), None);
    assert_eq!(parse_variable_decl("let $$ = 1").ok(), None);
    assert_eq!(
        parse_variable_decl("let $abc = \"def\"").ok(),
        Some(Variable { identifier: "abc".to_string(), value: "\"def\"".to_string() })
    );
}

#[test]
fn declaration_components() {
    let (f, rest) =
        parse_func_declaration("export func g(a: int, b: (string, int)) {\nfirst\n\nlast\n} tail")
            .unwrap();
    assert_eq!(f.name, "g");
    assert!(f.exported);
    assert_eq!(f.args.len(), 2);
    assert_eq!(f.args[0].identifier, "a");
    assert_eq!(f.args[0].ty, DeaconType::Int);
    assert_eq!(f.args[1].identifier, "b");
    assert_eq!(f.args[1].ty, DeaconType::Tuple(vec![DeaconType::String, DeaconType::Int]));
    assert_eq!(f.body, owned(&["first", "", "last"]));
    assert_eq!(rest, " tail");
}

#[test]
fn declaration_sequence() {
    let text = "func one() {\necho 1\n}func two() {\necho 2\n}";
    let (first, rest) = parse_func_declaration(text).unwrap();
    assert_eq!(first.name, "one");
    assert_eq!(first.body, owned(&["echo 1"]));
    let (second, rest2) = parse_func_declaration(rest).unwrap();
    assert_eq!(second.name, "two");
    assert_eq!(second.body, owned(&["echo 2"]));
    assert_eq!(rest2, "");
}

#[test]
fn escaped_brace_does_not_close_body() {
    let (f, rest) = parse_func_declaration("func f() {\necho \\}\necho done\n}").unwrap();
    assert_eq!(f.body, owned(&["echo \\}", "echo done"]));
    assert_eq!(rest, "");
}

#[test]
fn unterminated_body_is_incomplete() {
    assert_eq!(
        parse_func_declaration("func f() {\necho hi"),
        Err(FnParseError::Incomplete)
    );
    assert_eq!(parse_func_declaration("func f("), Err(FnParseError::Incomplete));
    assert_eq!(parse_func_declaration("echo hi"), Err(FnParseError::Incomplete));
}

#[test]
fn declaration_faults() {
    match parse_func_declaration("func f x") {
        Err(FnParseError::Error(fault)) => {
            assert_eq!(fault.offset, 6);
            assert_eq!(fault.expected, ExpectedToken::Char('('));
        }
        other => panic!("unexpected outcome: {:?}", other),
    }
    match parse_func_declaration("func () {}") {
        Err(FnParseError::Error(fault)) => {
            assert_eq!(fault.offset, 5);
            assert_eq!(fault.expected, ExpectedToken::Identifier);
        }
        other => panic!("unexpected outcome: {:?}", other),
    }
    match parse_func_declaration("func f(a: widget) {}") {
        Err(FnParseError::Error(fault)) => {
            assert_eq!(fault.offset, 10);
            assert_eq!(fault.expected, ExpectedToken::TypeKeyword);
        }
        other => panic!("unexpected outcome: {:?}", other),
    }
}

#[test]
fn type_faults() {
    match DeaconType::try_from("(int) x") {
        Err(fault) => assert_eq!(fault.expected, ExpectedToken::End),
        other => panic!("unexpected outcome: {:?}", other),
    }
    match DeaconType::try_from("string ") {
        // exact keyword match only: trailing space falls to the tuple form
        Err(fault) => assert_eq!(fault.expected, ExpectedToken::Char('(')),
        other => panic!("unexpected outcome: {:?}", other),
    }
    assert_eq!(DeaconType::try_from("bool"), Ok(DeaconType::Bool));
    assert_eq!(DeaconType::try_from("null"), Ok(DeaconType::Null));
    assert_eq!(DeaconType::try_from("()"), Ok(DeaconType::Tuple(vec![])));
}

#[test]
fn variable_faults() {
    match parse_variable_decl("x = 1") {
        Err(fault) => {
            assert_eq!(fault.offset, 0);
            assert_eq!(fault.expected, ExpectedToken::KeywordLet);
        }
        other => panic!("unexpected outcome: {:?}", other),
    }
    match parse_variable_decl("let$x = 1") {
        Err(fault) => {
            assert_eq!(fault.offset, 3);
            assert_eq!(fault.expected, ExpectedToken::Whitespace);
        }
        other => panic!("unexpected outcome: {:?}", other),
    }
    match parse_variable_decl("let $x = ") {
        Err(fault) => assert_eq!(fault.expected, ExpectedToken::Value),
        other => panic!("unexpected outcome: {:?}", other),
    }
    match parse_variable_decl("let $x 1") {
        Err(fault) => assert_eq!(fault.expected, ExpectedToken::Char('=')),
        other => panic!("unexpected outcome: {:?}", other),
    }
    assert_eq!(
        parse_variable_reassignment("$x = 5").ok(),
        Some(Variable { identifier: "x".to_string(), value: "5".to_string() })
    );
    assert_eq!(parse_variable_reassignment("x = 5").ok(), None);
}

#[test]
fn variable_values_are_verbatim() {
    // the rest of the line after the optional whitespace following `=`
    // is captured exactly, trailing whitespace included
    assert_eq!(
        parse_variable_decl("let $v = 1 ").ok(),
        Some(Variable { identifier: "v".to_string(), value: "1 ".to_string() })
    );
    assert_eq!(
        parse_variable_decl("let $v = a  b").ok(),
        Some(Variable { identifier: "v".to_string(), value: "a  b".to_string() })
    );
    // only the first line belongs to the value
    assert_eq!(
        parse_variable_reassignment("$v = one
two").ok(),
        Some(Variable { identifier: "v".to_string(), value: "one".to_string() })
    );
}
