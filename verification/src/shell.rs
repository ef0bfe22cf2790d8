//! The result of one shell command, as plain data.
use vstd::prelude::*;

verus! {

/// What a finished shell command produced.  The command itself runs
/// outside the library; its outcome comes back as this value.
#[derive(Debug, Clone, PartialEq)]
pub struct CommandResult {
    pub stdout: String,
    pub stderr: String,
    pub exit_code: i32,
}

pub struct CommandResultV {
    pub stdout: Seq<char>,
    pub stderr: Seq<char>,
    pub exit_code: i32,
}

impl View for CommandResult {
    type V = CommandResultV;

    open spec fn view(&self) -> CommandResultV {
        CommandResultV { stdout: self.stdout@, stderr: self.stderr@, exit_code: self.exit_code }
    }
}

impl CommandResult {
    /// Packs the three outcome parts.
    pub fn new(stdout: String, stderr: String, exit_code: i32) -> (r: Self)
        ensures
            r@.stdout == stdout@,
            r@.stderr == stderr@,
            r@.exit_code == exit_code,
    {
        CommandResult { stdout, stderr, exit_code }
    }
}

} // verus!
