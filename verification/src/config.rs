//! Run configuration.
//!
//! The caller hands over the command-line arguments and, if it could read
//! them, the terminal's dimensions; reading both belongs to the thin layer
//! around the library. `Config::new` only decides and records.

use vstd::prelude::*;

verus! {

#[derive(Debug, PartialEq, Eq)]
pub struct Config {
    pub filename: String,
    pub terminal_width: usize,
    pub terminal_height: usize,
}

impl Config {
    /// Takes the file name from the second argument; fails when no file
    /// name was given or the terminal's dimensions could not be read.
    pub fn new(args: &[String], dimensions: Option<(usize, usize)>) -> (r: Result<
        Config,
        &'static str,
    >)
        ensures
            match r {
                Ok(c) => args@.len() >= 2 && c.filename@ == args@[1]@ && (match dimensions {
                    Some(d) => c.terminal_width == d.0 && c.terminal_height == d.1,
                    None => false,
                }),
                Err(m) => (args@.len() < 2 && m@ == "not enough arguments"@) || (args@.len() >= 2
                    && dimensions is None && m@ == "Could not read terminal size"@),
            },
    {
        if args.len() < 2 {
            return Err("not enough arguments");
        }
        let (terminal_width, terminal_height) = match dimensions {
            Some(d) => d,
            None => {
                return Err("Could not read terminal size");
            },
        };
        let filename = args[1].clone();
        Ok(Config { filename, terminal_width, terminal_height })
    }
}

} // verus!
