//! The command line: which command to run, and on which path.
use vstd::prelude::*;

verus! {

/// The arguments on the command line.
#[derive(Debug, Clone)]
pub struct Args {
    pub command: String,
    pub path: String,
}

/// A command of the runner.
#[derive(Debug, Clone)]
pub enum Command {
    /// Write the Lua definitions file into a directory.
    Init { path: String },
    /// Run the test scripts under a path.
    Test { path: String },
}

impl Args {
    /// The command that the arguments name: `init` or `test`, on their path.
    pub fn command(&self) -> (c: Option<Command>)
        ensures
            self.command@ == "init"@ ==> (c matches Some(Command::Init { path }) && path@
                == self.path@),
            self.command@ == "test"@ ==> (c matches Some(Command::Test { path }) && path@
                == self.path@),
            self.command@ != "init"@ && self.command@ != "test"@ ==> c is None,
    {
        proof {
            reveal_strlit("init");
            reveal_strlit("test");
            assert("init"@[0] != "test"@[0]);
        }
        let init = String::from_str("init");
        let test = String::from_str("test");
        if self.command == init {
            Some(Command::Init { path: self.path.clone() })
        } else if self.command == test {
            Some(Command::Test { path: self.path.clone() })
        } else {
            None
        }
    }
}

/// The name of the Lua definitions file that `init` writes.
pub fn definitions_file_name() -> (n: &'static str)
    ensures
        n@ == "hutc.defs.lua"@,
{
    "hutc.defs.lua"
}

} // verus!
