//! Configuration resolution: derives a validated search configuration from a
//! raw argument list and the presence of one environment toggle.

use vstd::prelude::*;

verus! {

/// Why a raw argument list could not be resolved into a [`Config`].
#[derive(Clone, Copy, Debug, PartialEq, Eq, Structural)]
pub enum ConfigError {
    /// No query string was given (fewer than two arguments in all).
    MissingQuery,
    /// A query was given but no file name followed it.
    MissingFilename,
}

impl ConfigError {
    /// The human-readable diagnostic for this error.
    pub fn message(&self) -> (r: &'static str)
        ensures
            *self is MissingQuery ==> r@ == "Didn't get a query string"@,
            *self is MissingFilename ==> r@ == "Didn't get a file name"@,
    {
        match self {
            ConfigError::MissingQuery => "Didn't get a query string",
            ConfigError::MissingFilename => "Didn't get a file name",
        }
    }
}

/// A validated search configuration: what to search for, where, and whether
/// letter case distinguishes lines from the query.
#[derive(Debug)]
pub struct Config {
    /// The substring being searched for.
    pub query: String,
    /// The file whose contents are to be searched.
    pub filename: String,
    /// True when containment is tested verbatim; false when both sides are
    /// lowered first.
    pub case_sensitive: bool,
}

impl Config {
    /// Resolves the full process argument list into a configuration.
    ///
    /// Position 0 (the program name) is discarded; position 1 becomes the
    /// query and position 2 the file name; anything beyond is deliberately
    /// ignored.  `case_insensitive_set` reports whether the one environment
    /// toggle is present; its presence alone switches the case mode.
    pub fn new(args: &Vec<String>, case_insensitive_set: bool) -> (r: Result<Config, ConfigError>)
        ensures
            args@.len() < 2 ==> r == Result::<Config, ConfigError>::Err(ConfigError::MissingQuery),
            args@.len() == 2 ==> r == Result::<Config, ConfigError>::Err(
                ConfigError::MissingFilename,
            ),
            args@.len() > 2 ==> {
                &&& r is Ok
                &&& r->Ok_0.query@ == args@[1]@
                &&& r->Ok_0.filename@ == args@[2]@
                &&& r->Ok_0.case_sensitive == !case_insensitive_set
            },
    {
        if args.len() < 2 {
            return Err(ConfigError::MissingQuery);
        }
        if args.len() == 2 {
            return Err(ConfigError::MissingFilename);
        }
        let query = args[1].clone();
        let filename = args[2].clone();
        Ok(Config { query, filename, case_sensitive: !case_insensitive_set })
    }
}

impl PartialEq for Config {
    fn eq(&self, other: &Config) -> (r: bool) {
        self.query == other.query && self.filename == other.filename && self.case_sensitive
            == other.case_sensitive
    }
}

impl vstd::std_specs::cmp::PartialEqSpecImpl for Config {
    open spec fn obeys_eq_spec() -> bool {
        true
    }

    open spec fn eq_spec(&self, other: &Config) -> bool {
        self.query@ == other.query@ && self.filename@ == other.filename@ && self.case_sensitive
            == other.case_sensitive
    }
}

} // verus!
