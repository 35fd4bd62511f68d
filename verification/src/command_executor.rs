//! Running the engine and capturing its output, behind a trait.
//!
//! The listing functions only need a captured stdout or a captured stderr,
//! so they are generic over an executor. Each implementation states in
//! `execute_ens` what it guarantees about the outputs it hands back; a
//! scripted executor that replays a fixed response lives here and pins the
//! listing functions down in tests, while a process-spawning implementation
//! stays outside the verified library.

use vstd::prelude::*;

use crate::text::str_views;

verus! {

/// The views of a captured outcome: stdout text on success, stderr text on
/// failure.
pub open spec fn result_view(r: Result<String, String>) -> Result<Seq<char>, Seq<char>> {
    match r {
        Ok(s) => Ok(s@),
        Err(e) => Err(e@),
    }
}

/// The text a command's outcome contributes to parsing: captured stdout,
/// or nothing when the command failed.
pub open spec fn ok_or_empty(o: Result<Seq<char>, Seq<char>>) -> Seq<char> {
    match o {
        Ok(t) => t,
        Err(_) => Seq::<char>::empty(),
    }
}

/// Something that can run a command line and capture its output.
pub trait CommandExecutor {
    /// What this executor guarantees about an outcome of running `command`.
    spec fn execute_ens(&self, command: Seq<Seq<char>>, output: Result<Seq<char>, Seq<char>>) -> bool;

    /// Run `command`, returning captured stdout on success and captured
    /// stderr on failure.
    fn execute(&self, command: &Vec<String>) -> (r: Result<String, String>)
        ensures
            self.execute_ens(str_views(command@), result_view(r)),
    ;
}

/// An executor that replays one fixed response, whatever the command: the
/// deterministic stand-in that lets callers of the listing functions be
/// exercised without an engine.
pub struct ScriptedExecutor {
    pub response: Result<String, String>,
}

impl ScriptedExecutor {
    /// An executor that always succeeds with `stdout`.
    pub fn from_stdout(stdout: String) -> (r: ScriptedExecutor)
        ensures
            r.response == Ok::<String, String>(stdout),
    {
        ScriptedExecutor { response: Ok(stdout) }
    }

    /// An executor that always fails with `stderr`.
    pub fn from_stderr(stderr: String) -> (r: ScriptedExecutor)
        ensures
            r.response == Err::<String, String>(stderr),
    {
        ScriptedExecutor { response: Err(stderr) }
    }
}

impl CommandExecutor for ScriptedExecutor {
    open spec fn execute_ens(
        &self,
        command: Seq<Seq<char>>,
        output: Result<Seq<char>, Seq<char>>,
    ) -> bool {
        output == result_view(self.response)
    }

    fn execute(&self, command: &Vec<String>) -> (r: Result<String, String>) {
        match &self.response {
            Ok(s) => Ok(s.clone()),
            Err(e) => Err(e.clone()),
        }
    }
}

} // verus!
