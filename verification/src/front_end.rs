//! What the command line says: the path of the source file and the strict
//! flag.

use vstd::prelude::*;
use vstd::string::*;

verus! {

/// The settings of one run.
pub struct Config {
    /// The path of the source file.
    pub path: String,
    /// Whether `--strict` was given.
    pub strict: bool,
}

impl Config {
    pub fn new(path: String, strict: bool) -> (config: Config)
        ensures
            config.path == path,
            config.strict == strict,
    {
        Config { path, strict }
    }
}

/// Some argument is spelled `--strict`.
pub open spec fn has_strict_flag(args: Seq<String>) -> bool {
    exists|i: int| 0 <= i < args.len() && (#[trigger] args[i])@ == "--strict"@
}

/// Reads the settings from the arguments of the command line, the
/// program's own name first. The argument after the name is the path. The
/// strict flag may stand anywhere. With fewer than two arguments there is
/// no path, and the outcome is a message that says so.
pub fn parse_arguments(args: &Vec<String>) -> (outcome: Result<Config, String>)
    ensures
        outcome is Ok <==> args@.len() >= 2,
        outcome matches Ok(config) ==> config.path@ == args@[1]@ && config.strict
            == has_strict_flag(args@),
        outcome matches Err(message) ==> message@ == "not enought arguments"@,
{
    if args.len() < 2 {
        return Err(String::from_str("not enought arguments"));
    }
    let path = args[1].clone();
    let strict_command = String::from_str("--strict");
    let mut strict = false;
    let mut i: usize = 0;
    while i < args.len()
        invariant
            i <= args.len(),
            strict_command@ == "--strict"@,
            strict == exists|j: int| 0 <= j < i && (#[trigger] args@[j])@ == "--strict"@,
        decreases args.len() - i,
    {
        if args[i] == strict_command {
            strict = true;
        }
        i += 1;
    }
    Ok(Config::new(path, strict))
}

} // verus!
