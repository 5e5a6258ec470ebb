//! Run configuration: which file to scan, taken from the command-line
//! arguments. The caller collects the raw arguments; picking the filename
//! out of them, and rejecting an argument list that has none, happens here.

use vstd::prelude::*;

verus! {

/// The lexer's configuration: the name of the source file to scan.
pub struct Config {
    pub filename: String,
}

impl Config {
    /// Build a configuration from the command-line arguments as the process
    /// received them (the first being the program's own name). The second
    /// argument is the filename; an argument list shorter than that is
    /// rejected.
    pub fn new(args: Vec<String>) -> (r: Result<Config, &'static str>)
        ensures
            match r {
                Ok(c) => args@.len() >= 2 && c.filename@ == args@[1]@,
                Err(e) => args@.len() < 2 && e@ == "not enough arguments"@,
            },
    {
        if args.len() < 2 {
            return Err("not enough arguments");
        }
        let filename = args[1].clone();
        Ok(Config { filename })
    }
}

} // verus!
