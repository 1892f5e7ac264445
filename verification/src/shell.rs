//! The narrow execution interface behind which all external processes
//! and environment lookups stand. The launcher's logic is written
//! against this trait, so a deterministic scripted substitute can drive
//! every code path without touching real processes.

use vstd::prelude::*;

verus! {

/// A failure reported while running an external command: one
/// human-readable line of context.
#[derive(Debug)]
pub struct ShellError {
    pub message: String,
}

impl ShellError {
    pub fn new(message: String) -> (r: ShellError)
        ensures
            r.message@ == message@,
    {
        ShellError { message }
    }

    /// The error's single-line message.
    pub fn message(&self) -> (r: &str)
        ensures
            r@ == self.message@,
    {
        self.message.as_str()
    }
}

/// Runs external programs and reads the environment.
pub trait Shell {
    /// Runs the program and captures its standard output; an error on a
    /// spawn failure or a non-zero exit.
    fn run(&self, program: &str, args: &Vec<String>) -> Result<String, ShellError>;

    /// Runs the program and reports whether it exited successfully; an
    /// error only on a spawn failure.
    fn run_status(&self, program: &str, args: &Vec<String>) -> Result<bool, ShellError>;

    /// Runs the program with the caller's terminal inherited, so a
    /// full-screen interface can take over the screen.
    fn run_tty(&self, program: &str, args: &Vec<String>) -> Result<(), ShellError>;

    /// The value of an environment variable, if it is set.
    fn env_var(&self, key: &str) -> Option<String>;
}

} // verus!
