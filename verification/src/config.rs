use vstd::prelude::*;

verus! {

/// The command the program was asked to run, parsed from its argument list.
pub struct Config {
    pub command: String,
}

impl Config {
    /// Accepts exactly one command beside the program name and records it;
    /// any other number of arguments is rejected with a usage error.
    pub fn build(args: &[String]) -> (r: Result<Config, &'static str>)
        ensures
            args@.len() == 2 ==> (r matches Ok(c) && c.command@ == args@[1]@),
            args@.len() != 2 ==> (r matches Err(e) && e@ == "Expect <command>"@),
    {
        if args.len() != 2 {
            return Err("Expect <command>");
        }

        let command = args[1].clone();

        Ok(Config { command })
    }
}

} // verus!
