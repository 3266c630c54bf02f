use vstd::prelude::*;

use crate::flag::{CheckRule, DefaultRule};

verus! {

/// A CLIValue describes one stand-alone value passed without a flag in front.
pub struct CLIValue {
    pub name: String,
    pub default: Option<DefaultRule>,
    pub required: bool,
    pub description: String,
    pub validator: Option<CheckRule>,
}

/// The name as the usage line shows it: a `?` marks an optional value.
pub open spec fn spec_value_usage(v: &CLIValue) -> Seq<char> {
    if v.required {
        v.name@
    } else {
        v.name@ + "?"@
    }
}

impl CLIValue {
    /// Creates a new CLIValue.
    pub fn new(name: &str) -> (r: Self)
        ensures
            r.name@ == name@,
            r.default is None,
            r.required == false,
            r.description@ == "Unknown"@,
            r.validator is None,
    {
        CLIValue {
            name: name.to_owned(),
            default: Option::None,
            required: false,
            description: String::from_str("Unknown"),
            validator: Option::None,
        }
    }

    /// Sets a default rule; a value with a default is always resolvable,
    /// so it is marked required.
    pub fn default(self, default: DefaultRule) -> (r: Self)
        ensures
            r == (CLIValue { default: Option::Some(default), required: true, ..self }),
    {
        let mut s = self;
        s.default = Option::Some(default);
        s.required = true;
        s
    }

    /// Marks this value as optional or required.
    pub fn required(self, required: bool) -> (r: Self)
        ensures
            r == (CLIValue { required, ..self }),
    {
        let mut s = self;
        s.required = required;
        s
    }

    /// Sets a validation rule for this value.
    pub fn validate(self, validator: CheckRule) -> (r: Self)
        ensures
            r == (CLIValue { validator: Option::Some(validator), ..self }),
    {
        let mut s = self;
        s.validator = Option::Some(validator);
        s
    }

    /// Sets a description.
    pub fn description(self, description: &str) -> (r: Self)
        ensures
            r.name == self.name,
            r.default == self.default,
            r.required == self.required,
            r.description@ == description@,
            r.validator == self.validator,
    {
        let mut s = self;
        s.description = description.to_owned();
        s
    }

    /// Returns the rendered name and the description as a tuple.
    /// The name gets a `?` as postfix when this value is optional.
    pub fn stringify(&self) -> (r: (String, String))
        ensures
            r.0@ == spec_value_usage(self),
            r.1@ == self.description@,
    {
        let name = if self.required {
            self.name.clone()
        } else {
            let mut n = self.name.clone();
            n.append("?");
            n
        };
        (name, self.description.clone())
    }
}

} // verus!
