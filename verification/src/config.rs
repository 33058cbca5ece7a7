//! Configuration of one search run: query, file path, case policy.

use vstd::prelude::*;

verus! {

/// The validated inputs of one run. Built once from the argument vector and
/// the presence of the `IGNORE_CASE` environment variable, never mutated.
#[derive(Debug, PartialEq, Eq)]
pub struct Config {
    pub query: String,
    pub file_path: String,
    pub ignore_case: bool,
}

/// A missing positional argument, the one way building a `Config` fails.
#[derive(Clone, Copy, Debug, PartialEq, Eq)]
pub enum ConfigError {
    MissingQuery,
    MissingFilePath,
}

impl ConfigError {
    /// The fixed descriptive message of this error.
    pub fn message(&self) -> (r: &'static str)
        ensures
            *self is MissingQuery ==> r@ == "Didn't get a query string"@,
            *self is MissingFilePath ==> r@ == "Didn't get a file path"@,
    {
        match self {
            ConfigError::MissingQuery => "Didn't get a query string",
            ConfigError::MissingFilePath => "Didn't get a file path",
        }
    }
}

impl Config {
    /// Builds a configuration from the argument vector, whose first element
    /// is the program name, and from whether the `IGNORE_CASE` environment
    /// variable is present. The second argument becomes the query and the
    /// third the file path; arguments past those are ignored; a missing one
    /// is the error that names it.
    pub fn build(args: Vec<String>, ignore_case: bool) -> (r: Result<Config, ConfigError>)
        ensures
            args@.len() < 2 ==> r == Err::<Config, ConfigError>(ConfigError::MissingQuery),
            args@.len() == 2 ==> r == Err::<Config, ConfigError>(ConfigError::MissingFilePath),
            args@.len() >= 3 ==> (r matches Ok(c) && c.query@ == args@[1]@ && c.file_path@
                == args@[2]@ && c.ignore_case == ignore_case),
    {
        if args.len() < 2 {
            return Err(ConfigError::MissingQuery);
        }
        if args.len() < 3 {
            return Err(ConfigError::MissingFilePath);
        }
        let query = args[1].clone();
        let file_path = args[2].clone();
        Ok(Config { query, file_path, ignore_case })
    }
}

} // verus!
