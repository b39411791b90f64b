//! What the web playground hands back for a run: whether it succeeded, and
//! the text that the program wrote to each stream.

use vstd::prelude::*;

verus! {

pub struct RunResult {
    ok: bool,
    stdout: String,
    stderr: String,
}

impl View for RunResult {
    type V = (bool, Seq<char>, Seq<char>);

    closed spec fn view(&self) -> (bool, Seq<char>, Seq<char>) {
        (self.ok, self.stdout@, self.stderr@)
    }
}

impl RunResult {
    pub fn new(ok: bool, stdout: String, stderr: String) -> (result: RunResult)
        ensures
            result@ == (ok, stdout@, stderr@),
    {
        RunResult { ok, stdout, stderr }
    }

    /// Whether the program compiled and ran without error.
    pub fn ok(&self) -> (ok: bool)
        ensures
            ok == self@.0,
    {
        self.ok
    }

    /// The text written to the standard output.
    pub fn stdout(&self) -> (text: String)
        ensures
            text@ == self@.1,
    {
        self.stdout.clone()
    }

    /// The text written to the standard error stream.
    pub fn stderr(&self) -> (text: String)
        ensures
            text@ == self@.2,
    {
        self.stderr.clone()
    }
}

} // verus!
