use vstd::prelude::*;

use crate::strmap::StrMap;
use crate::strutil::str_eq;

verus! {

/// The immutable, queryable outcome of one successful parse: resolved
/// positional values, resolved flag arguments, and the value-less flags
/// that appeared.
#[derive(Debug)]
pub struct CLIResult {
    values: StrMap,
    args: StrMap,
    flags: Vec<String>,
}

impl CLIResult {
    /// The resolved positional values, one entry per bound ValueSpec.
    pub closed spec fn spec_values(&self) -> Map<Seq<char>, Seq<char>> {
        self.values@
    }

    /// The resolved arguments of value-taking flags.
    pub closed spec fn spec_args(&self) -> Map<Seq<char>, Seq<char>> {
        self.args@
    }

    /// The names of the value-less flags that appeared, in order.
    pub closed spec fn spec_flags(&self) -> Seq<Seq<char>> {
        self.flags.deep_view()
    }

    /// Whether `name` counts as present: either a value-less flag of that
    /// name appeared, or a value-taking flag of that name was resolved.
    pub open spec fn spec_has_flag(&self, name: Seq<char>) -> bool {
        self.spec_flags().contains(name) || self.spec_args().contains_key(name)
    }

    /// Assembles a result from its three parts.
    pub fn from(values: StrMap, args: StrMap, flags: Vec<String>) -> (r: CLIResult)
        ensures
            r.spec_values() == values@,
            r.spec_args() == args@,
            r.spec_flags() == flags.deep_view(),
    {
        CLIResult { values, args, flags }
    }

    /// Checks whether a flag is set, counting a resolved value-taking
    /// flag as set too.
    pub fn has_flag(&self, name: &str) -> (r: bool)
        ensures
            r == self.spec_has_flag(name@),
    {
        let mut i: usize = 0;
        while i < self.flags.len()
            invariant
                i <= self.flags.len(),
                self.flags.deep_view().len() == self.flags.len(),
                forall|j: int| 0 <= j < i ==> self.flags.deep_view()[j] != name@,
            decreases self.flags.len() - i,
        {
            if str_eq(self.flags[i].as_str(), name) {
                proof {
                    assert(self.spec_flags()[i as int] == name@);
                }
                return true;
            }
            i += 1;
        }
        proof {
            if self.spec_flags().contains(name@) {
                let j = choose|j: int|
                    0 <= j < self.spec_flags().len() && self.spec_flags()[j] == name@;
                assert(self.flags.deep_view()[j] == name@);
            }
        }
        self.args.contains_key(name)
    }

    /// Checks whether an argument exists.
    pub fn has_arg(&self, name: &str) -> (r: bool)
        ensures
            r == self.spec_args().contains_key(name@),
    {
        self.args.contains_key(name)
    }

    /// Resolves an argument.
    pub fn get_arg(&self, name: &str) -> (r: Option<&String>)
        ensures
            match r {
                Option::Some(v) => self.spec_args().contains_key(name@) && v@
                    == self.spec_args()[name@],
                Option::None => !self.spec_args().contains_key(name@),
            },
    {
        self.args.get(name)
    }

    /// Checks whether a value exists.
    pub fn has_value(&self, name: &str) -> (r: bool)
        ensures
            r == self.spec_values().contains_key(name@),
    {
        self.values.contains_key(name)
    }

    /// Resolves a value.
    pub fn get_value(&self, name: &str) -> (r: Option<&String>)
        ensures
            match r {
                Option::Some(v) => self.spec_values().contains_key(name@) && v@
                    == self.spec_values()[name@],
                Option::None => !self.spec_values().contains_key(name@),
            },
    {
        self.values.get(name)
    }
}

} // verus!
