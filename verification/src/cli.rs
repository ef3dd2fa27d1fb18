//! The command line: what the program does with its arguments.

use vstd::prelude::*;

verus! {

/// The parsed command line.
#[derive(Debug)]
pub struct Cli {
    /// `-v` / `--version`: show the versions of the program and of `ssh`.
    pub version: bool,
    /// Arguments to hand to `ssh` as they are, skipping the browser.
    pub ssh_args: Vec<String>,
}

/// What the program does for a command line.
#[derive(Debug)]
pub enum Action {
    /// Print the program's version and that of `ssh`, then stop.
    ShowVersions,
    /// Run `ssh` with these arguments, then stop.
    RunSsh(Vec<String>),
    /// Open the host browser, and connect to the host chosen in it, if any.
    Browse,
}

impl Cli {
    /// What the program does: the version flag wins, then arguments for
    /// `ssh`; without either it opens the browser.
    pub fn action(self) -> (r: Action)
        ensures
            self.version ==> r is ShowVersions,
            !self.version && self.ssh_args@.len() > 0 ==> (r matches Action::RunSsh(args) && args@
                == self.ssh_args@),
            !self.version && self.ssh_args@.len() == 0 ==> r is Browse,
    {
        if self.version {
            Action::ShowVersions
        } else if self.ssh_args.len() > 0 {
            Action::RunSsh(self.ssh_args)
        } else {
            Action::Browse
        }
    }
}

} // verus!
