//! Front-end parser and diagnostics engine for the Deacon shell's embedded
//! scripting language.
//!
//! Raw script text is turned into structured declarations: function
//! declarations with typed parameter lists and bracket-balanced bodies,
//! variable bindings, command invocations, and `?name?` environment
//! placeholders.  Malformed text yields positioned diagnostics instead.
//! Every grammar function carries a contract relating its result to a
//! mathematical description of the grammar over sequences of characters.

pub mod commands;
pub mod config;
pub mod diagnostics;
pub mod engine;
pub mod env;
pub mod function;
pub mod integrations;
pub mod laws;
pub mod lexical;
pub mod placeholder;
pub mod text;
pub mod types;
pub mod util;
pub mod variable;

pub use config::{DeaconConfig, Integrations};
pub use commands::{resolve_function, Builtin, DirEntryInfo};
pub use diagnostics::{Diagnostic, ExpectedToken, ParseFault};
pub use engine::{lint_script, Either, Linter};
pub use integrations::{get_crate_manifest, is_cargo_workspace, is_rust_project, ManifestInfo};
pub use function::{parse_call, parse_func_declaration, Call, FormalArg, Function, FnParseError};
pub use env::{build_invocation, prepare_invocation, substitute_env_var, ShellError};
pub use lexical::is_blank;
pub use placeholder::parse_env_vars;
pub use types::DeaconType;
pub use variable::{parse_variable_decl, parse_variable_reassignment, Variable};
