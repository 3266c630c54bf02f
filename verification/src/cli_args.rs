use vstd::prelude::*;

use crate::strmap::StrMap;
use crate::strutil::vec_contains_str;

verus! {

/// Relies on std::path::PathBuf: an owned filesystem path, carried
/// through as an opaque value; nothing about its contents is assumed.
#[verifier::external_type_specification]
#[verifier::external_body]
pub struct ExPathBuf(std::path::PathBuf);

/// The parsed command line of the file-sorting tool: the two
/// directories it works between, and the raw flags and attached
/// arguments as they appeared.
pub struct CLIArguments {
    pub source: std::path::PathBuf,
    pub target: std::path::PathBuf,
    pub flags: Vec<String>,
    pub args: StrMap,
}

impl CLIArguments {
    /// Resolves an argument by its name and its corresponding
    /// abbreviation, the name read first. May not be called where the
    /// flag appeared stand-alone without its expected value.
    pub fn get_arg_value(&self, name: &str, abbr: &str) -> (r: Option<&String>)
        requires
            !self.args@.contains_key(name@) && !self.args@.contains_key(abbr@) ==> !(
            self.flags.deep_view().contains(name@) || self.flags.deep_view().contains(abbr@)),
        ensures
            match r {
                Option::Some(v) => if self.args@.contains_key(name@) {
                    v@ == self.args@[name@]
                } else {
                    self.args@.contains_key(abbr@) && v@ == self.args@[abbr@]
                },
                Option::None => !self.args@.contains_key(name@) && !self.args@.contains_key(
                    abbr@,
                ),
            },
    {
        match self.args.get(name) {
            Option::Some(v) => Option::Some(v),
            Option::None => self.args.get(abbr),
        }
    }

    /// Checks whether a flag or its corresponding abbreviation is used,
    /// stand-alone or with an attached value.
    pub fn has_flag(&self, name: &str, abbr: &str) -> (r: bool)
        ensures
            r == (self.flags.deep_view().contains(name@) || self.flags.deep_view().contains(abbr@)
                || self.args@.contains_key(name@) || self.args@.contains_key(abbr@)),
    {
        if vec_contains_str(&self.flags, name) || vec_contains_str(&self.flags, abbr) {
            return true;
        }
        self.args.contains_key(name) || self.args.contains_key(abbr)
    }
}

} // verus!
