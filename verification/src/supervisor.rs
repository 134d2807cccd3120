//! Process supervision.
//!
//! The cached installer runs as a child process of a Java-style launcher
//! with a fixed argument template around the caller's version string. The
//! library builds that invocation and judges the child's exit; spawning and
//! waiting happen at the program's edge.

use vstd::prelude::*;

verus! {

/// A child-process invocation: the launcher to start and its arguments in
/// order.
pub struct Invocation {
    pub program: String,
    pub args: Vec<String>,
}

/// The fixed argument template of the installer invocation:
/// `-jar <path> client -snapshot -mcversion <version>`.
pub open spec fn installer_args_model(path: Seq<char>, version: Seq<char>) -> Seq<Seq<char>> {
    seq!["-jar"@, path, "client"@, "-snapshot"@, "-mcversion"@, version]
}

/// Process Supervisor, build half: the exact child invocation that installs
/// `version` with the artifact at `path` — the `java` launcher with the
/// fixed argument template around the two strings.
pub fn installer_invocation(path: &str, version: &str) -> (inv: Invocation)
    ensures
        inv.program@ == "java"@,
        inv.args.deep_view() == installer_args_model(path@, version@),
{
    let mut args: Vec<String> = Vec::new();
    args.push("-jar".to_owned());
    args.push(path.to_owned());
    args.push("client".to_owned());
    args.push("-snapshot".to_owned());
    args.push("-mcversion".to_owned());
    args.push(version.to_owned());
    let inv = Invocation { program: "java".to_owned(), args };
    proof {
        assert(inv.args.deep_view() =~= installer_args_model(path@, version@));
    }
    inv
}

/// Process Supervisor, judge half: the run succeeded exactly when the child
/// reported exit code 0; a non-zero code and an abnormal end without a code
/// are both failures.
pub fn run_succeeded(exit_code: Option<i32>) -> (r: bool)
    ensures
        r <==> exit_code == Some(0i32),
{
    match exit_code {
        Some(c) => c == 0,
        None => false,
    }
}

} // verus!
