//! What one search is asked to do, as given on the command line.
use vstd::prelude::*;

verus! {

/// The query, the file to search and whether case counts.
pub struct Config {
    pub query: String,
    pub filename: String,
    pub case_sensitive: bool,
}

impl Config {
    /// Builds the configuration from the command-line arguments, where
    /// `args[0]` is the program's path, `args[1]` the query and `args[2]` the
    /// file name; further arguments are ignored. `case_insensitive_set` tells
    /// whether the `CASE_INSENSITIVE` environment variable is set, with any
    /// value: then case is ignored.
    pub fn new(args: &[String], case_insensitive_set: bool) -> (r: Result<Config, &'static str>)
        ensures
            r is Err <==> args@.len() < 3,
            r matches Ok(c) ==> {
                &&& c.query@ == args@[1]@
                &&& c.filename@ == args@[2]@
                &&& c.case_sensitive == !case_insensitive_set
            },
    {
        if args.len() < 3 {
            return Err("not enough arguments");
        }
        Ok(Config {
            query: args[1].clone(),
            filename: args[2].clone(),
            case_sensitive: !case_insensitive_set,
        })
    }
}

} // verus!
