use vstd::prelude::*;

use crate::strmap::StrMap;
use crate::strutil::{join_seq, join_strings, str_eq};

verus! {

/// How a flag or value obtains a string when none was supplied.
/// The rule is evaluated against the entries resolved so far.
pub enum DefaultRule {
    /// Always this string.
    Fixed(String),
    /// The resolved value of the named entry with a suffix appended;
    /// nothing when that entry is not resolved.
    Appended(String, String),
}

/// The string a default rule yields against the already-resolved entries.
pub open spec fn eval_default(d: Option<DefaultRule>, m: Map<Seq<char>, Seq<char>>) -> Option<
    Seq<char>,
> {
    match d {
        Option::None => Option::None,
        Option::Some(DefaultRule::Fixed(s)) => Option::Some(s@),
        Option::Some(DefaultRule::Appended(k, suffix)) => if m.contains_key(k@) {
            Option::Some(m[k@] + suffix@)
        } else {
            Option::None
        },
    }
}

impl DefaultRule {
    /// Evaluates the rule against the entries resolved so far.
    pub fn resolve(&self, map: &StrMap) -> (r: Option<String>)
        ensures
            match r {
                Option::Some(v) => eval_default(Option::Some(*self), map@) == Option::Some(v@),
                Option::None => eval_default(Option::Some(*self), map@) is None,
            },
    {
        match self {
            DefaultRule::Fixed(s) => Option::Some(s.clone()),
            DefaultRule::Appended(k, suffix) => match map.get(k.as_str()) {
                Option::None => Option::None,
                Option::Some(v) => {
                    let mut out = v.clone();
                    out.append(suffix.as_str());
                    Option::Some(out)
                },
            },
        }
    }
}

/// A test a supplied string must pass before it is accepted.
pub enum CheckRule {
    /// Every string passes.
    AcceptAny,
    /// Passes while the string holds fewer characters than the limit;
    /// rejected strings are reported with the given message.
    LenBelow(usize, String),
}

/// Whether `v` passes the rule.
pub open spec fn check_passes(c: CheckRule, v: Seq<char>) -> bool {
    match c {
        CheckRule::AcceptAny => true,
        CheckRule::LenBelow(limit, _) => v.len() < limit,
    }
}

/// The message a rule reports for a rejected string.
pub open spec fn check_message(c: CheckRule) -> Seq<char> {
    match c {
        CheckRule::AcceptAny => Seq::empty(),
        CheckRule::LenBelow(_, msg) => msg@,
    }
}

impl CheckRule {
    /// Applies the rule to `value`.
    pub fn check(&self, value: &str) -> (r: Result<(), String>)
        ensures
            r is Ok <==> check_passes(*self, value@),
            r matches Err(m) ==> m@ == check_message(*self),
    {
        match self {
            CheckRule::AcceptAny => Result::Ok(()),
            CheckRule::LenBelow(limit, msg) => {
                if value.unicode_len() < *limit {
                    Result::Ok(())
                } else {
                    Result::Err(msg.clone())
                }
            },
        }
    }
}

/// A CLIFlag describes one flag passed as a cli-argument.
pub struct CLIFlag {
    pub name: String,
    pub default: Option<DefaultRule>,
    pub description: String,
    pub value_description: String,
    pub expects_value: bool,
    pub validator: CheckRule,
    pub abbr: Vec<String>,
}

/// Whether `tok` is one of the flag's abbreviations.
pub open spec fn spec_has_abbr(f: CLIFlag, tok: Seq<char>) -> bool {
    exists|i: int| 0 <= i < f.abbr.deep_view().len() && f.abbr.deep_view()[i] == tok
}

/// The left-hand side of the flag's help line: its abbreviations joined
/// by commas, then the value placeholder when a value is expected.
pub open spec fn spec_flag_usage(f: &CLIFlag) -> Seq<char> {
    join_seq(f.abbr.deep_view(), ", "@) + if f.expects_value {
        " <"@ + f.value_description@ + ">"@
    } else {
        Seq::empty()
    }
}

impl CLIFlag {
    /// Creates a new CLIFlag.
    pub fn new(name: &str) -> (r: Self)
        ensures
            r.name@ == name@,
            r.default is None,
            r.description@ == Seq::<char>::empty(),
            r.value_description@ == Seq::<char>::empty(),
            r.expects_value == false,
            r.validator == CheckRule::AcceptAny,
            r.abbr.deep_view() == Seq::<Seq<char>>::empty(),
    {
        let r = CLIFlag {
            name: name.to_owned(),
            default: Option::None,
            description: String::new(),
            value_description: String::new(),
            expects_value: false,
            validator: CheckRule::AcceptAny,
            abbr: Vec::new(),
        };
        proof {
            assert(r.abbr.deep_view() =~= Seq::<Seq<char>>::empty());
        }
        r
    }

    /// Adds a new abbreviation.
    pub fn abbr(self, abbr: &str) -> (r: Self)
        ensures
            r.name == self.name,
            r.default == self.default,
            r.description == self.description,
            r.value_description == self.value_description,
            r.expects_value == self.expects_value,
            r.validator == self.validator,
            r.abbr.deep_view() == self.abbr.deep_view().push(abbr@),
    {
        let ghost before = self.abbr.deep_view();
        let mut s = self;
        s.abbr.push(abbr.to_owned());
        proof {
            assert(s.abbr.deep_view() =~= before.push(abbr@));
        }
        s
    }

    /// Makes the flag expect a value passed to it.
    pub fn expects_value(self, value: bool) -> (r: Self)
        ensures
            r == (CLIFlag { expects_value: value, ..self }),
    {
        let mut s = self;
        s.expects_value = value;
        s
    }

    /// Sets a default rule; a flag with a default always expects a value.
    pub fn default(self, default: DefaultRule) -> (r: Self)
        ensures
            r == (CLIFlag { default: Option::Some(default), expects_value: true, ..self }),
    {
        let mut s = self;
        s.default = Option::Some(default);
        s.expects_value = true;
        s
    }

    /// Evaluates the flag's default rule against the entries resolved so far.
    pub fn resolve_default(&self, map: &StrMap) -> (r: Option<String>)
        ensures
            match r {
                Option::Some(v) => eval_default(self.default, map@) == Option::Some(v@),
                Option::None => eval_default(self.default, map@) is None,
            },
    {
        match &self.default {
            Option::None => Option::None,
            Option::Some(d) => d.resolve(map),
        }
    }

    /// Updates the description of the expected value.
    /// May only be called on a flag that expects a value.
    pub fn value_description(self, description: &str) -> (r: Self)
        requires
            self.expects_value,
        ensures
            r.name == self.name,
            r.default == self.default,
            r.description == self.description,
            r.value_description@ == description@,
            r.expects_value == self.expects_value,
            r.validator == self.validator,
            r.abbr == self.abbr,
    {
        let mut s = self;
        s.value_description = description.to_owned();
        s
    }

    /// Sets a validation rule for this flag.
    pub fn validate(self, validator: CheckRule) -> (r: Self)
        ensures
            r == (CLIFlag { validator, ..self }),
    {
        let mut s = self;
        s.validator = validator;
        s
    }

    /// Sets a description.
    pub fn description(self, description: &str) -> (r: Self)
        ensures
            r.name == self.name,
            r.default == self.default,
            r.description@ == description@,
            r.value_description == self.value_description,
            r.expects_value == self.expects_value,
            r.validator == self.validator,
            r.abbr == self.abbr,
    {
        let mut s = self;
        s.description = description.to_owned();
        s
    }

    /// Converts this flag to a readable usage string, paired with a
    /// clone of the description.
    pub fn stringify(&self) -> (r: (String, String))
        ensures
            r.0@ == spec_flag_usage(self),
            r.1@ == self.description@,
    {
        let mut usage = join_strings(&self.abbr, ", ");
        if self.expects_value {
            usage.append(" <");
            usage.append(self.value_description.as_str());
            usage.append(">");
            proof {
                assert(usage@ =~= spec_flag_usage(self));
            }
        } else {
            proof {
                assert(usage@ =~= spec_flag_usage(self));
            }
        }
        (usage, self.description.clone())
    }

    /// Checks whether this flag owns a specific abbreviation.
    pub fn has_abbr(&self, other: &str) -> (r: bool)
        ensures
            r == spec_has_abbr(*self, other@),
    {
        let mut i: usize = 0;
        while i < self.abbr.len()
            invariant
                i <= self.abbr.len(),
                self.abbr.deep_view().len() == self.abbr.len(),
                forall|j: int| 0 <= j < i ==> self.abbr.deep_view()[j] != other@,
            decreases self.abbr.len() - i,
        {
            if str_eq(self.abbr[i].as_str(), other) {
                proof {
                    assert(self.abbr.deep_view()[i as int] == other@);
                }
                return true;
            }
            i += 1;
        }
        false
    }
}

} // verus!
