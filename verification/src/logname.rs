//! `logname`: the name the user logged in with.

use vstd::prelude::*;
use crate::text::{chars_of, string_from_chars, push_str};

verus! {

/// The `logname` tool.
pub struct Logname;

impl Logname {
    /// Name of the tool.
    pub fn name(&self) -> (r: &'static str)
        ensures
            r@ == "logname"@,
    {
        "logname"
    }
}

/// The login name as reports list it.
#[derive(Debug)]
pub struct LognameSemanticRow {
    /// The login name (empty when there is none).
    pub login_name: String,
    /// Whether there is one.
    pub available: bool,
    /// Where it comes from.
    pub source: String,
}

/// The report of a `logname` run.
#[derive(Debug)]
pub struct LognameSemantic {
    /// The one row.
    pub rows: Vec<LognameSemanticRow>,
    /// What is written on standard output.
    pub classic_text: String,
    /// What is written on standard error.
    pub stderr_text: String,
    /// 1 without a login name, else 0.
    pub exit_code: i32,
}

/// The report of a run from the login name that the system gives, if any:
/// the name on a line of its own, or `no login name` on standard error and
/// exit code 1.
pub fn logname_semantic(login: Option<&str>) -> (r: LognameSemantic)
    ensures
        r.rows@.len() == 1,
        r.rows@[0].source@ == "posix:getlogin"@,
        r.rows@[0].available == login is Some,
        match login {
            Some(n) => {
                &&& r.rows@[0].login_name@ == n@
                &&& r.classic_text@ == n@ + "\n"@
                &&& r.stderr_text@.len() == 0
                &&& r.exit_code == 0
            },
            None => {
                &&& r.rows@[0].login_name@.len() == 0
                &&& r.classic_text@.len() == 0
                &&& r.stderr_text@ == "logname: no login name\n"@
                &&& r.exit_code == 1
            },
        },
{
    let source = string_from_chars(&chars_of("posix:getlogin"));
    match login {
        Some(n) => {
            let mut text = chars_of(n);
            push_str(&mut text, "\n");
            let row = LognameSemanticRow { login_name: string_from_chars(&chars_of(n)), available: true, source };
            let rows = vec![row];
            LognameSemantic { rows, classic_text: string_from_chars(&text), stderr_text: String::new(), exit_code: 0 }
        },
        None => {
            let row = LognameSemanticRow { login_name: String::new(), available: false, source };
            let rows = vec![row];
            LognameSemantic {
                rows,
                classic_text: String::new(),
                stderr_text: string_from_chars(&chars_of("logname: no login name\n")),
                exit_code: 1,
            }
        },
    }
}

/// The report of a refused command line, from clap's rendering of the
/// error, whether clap writes it on standard error, and whether it is the
/// help or version text (exit code 0; 1 otherwise).
pub fn logname_semantic_from_parse_error(rendered: &str, use_stderr: bool, help_or_version: bool) -> (r: LognameSemantic)
    ensures
        r.rows@.len() == 0,
        r.exit_code == (if help_or_version { 0i32 } else { 1i32 }),
        use_stderr ==> r.stderr_text@ == rendered@ && r.classic_text@.len() == 0,
        !use_stderr ==> r.classic_text@ == rendered@ && r.stderr_text@.len() == 0,
{
    let exit_code: i32 = if help_or_version { 0 } else { 1 };
    let text = string_from_chars(&chars_of(rendered));
    if use_stderr {
        LognameSemantic { rows: Vec::new(), classic_text: String::new(), stderr_text: text, exit_code }
    } else {
        LognameSemantic { rows: Vec::new(), classic_text: text, stderr_text: String::new(), exit_code }
    }
}

} // verus!
