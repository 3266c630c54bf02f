use vstd::prelude::*;

use crate::flag::{spec_flag_usage, CLIFlag};
use crate::parse::{
    apply_flag_defaults, apply_one_flag_default, error_message, find_flag, initial_state,
    lemma_find_flag, parse_outcome, scan_tokens, settle_values, ParseError, ParseState,
};
use crate::result::CLIResult;
use crate::strmap::StrMap;
use crate::strutil::{
    decimal_string, is_flag_token, pad_to, str_eq,
};
use crate::value::{spec_value_usage, CLIValue};
use crate::wrap::Wrapping;

verus! {

/// Two flags that may stand in one application: distinct names and no
/// shared abbreviation.
pub open spec fn distinct_flag_specs(f: CLIFlag, g: CLIFlag) -> bool {
    &&& f.name@ != g.name@
    &&& forall|a: int, b: int|
        0 <= a < f.abbr.deep_view().len() && 0 <= b < g.abbr.deep_view().len()
            ==> f.abbr.deep_view()[a] != g.abbr.deep_view()[b]
}

/// An ordered collection of flag and value descriptions under a program
/// name; assembled once through the builder, immutable thereafter.
pub struct CLIApp {
    name: String,
    flags: Vec<CLIFlag>,
    values: Vec<CLIValue>,
}

impl CLIApp {
    /// The program name.
    pub closed spec fn spec_name(&self) -> Seq<char> {
        self.name@
    }

    /// The declared flags, in registration order.
    pub closed spec fn spec_flags(&self) -> Seq<CLIFlag> {
        self.flags@
    }

    /// The declared positional values, in registration order.
    pub closed spec fn spec_values(&self) -> Seq<CLIValue> {
        self.values@
    }

    /// The registration-time invariant: flag names are unique, no
    /// abbreviation is shared by two flags, and value names are unique.
    pub open spec fn wf(&self) -> bool {
        &&& forall|i: int, j: int|
            0 <= i < j < self.spec_flags().len() ==> distinct_flag_specs(
                self.spec_flags()[i],
                self.spec_flags()[j],
            )
        &&& forall|i: int, j: int|
            0 <= i < j < self.spec_values().len() ==> self.spec_values()[i].name@
                != self.spec_values()[j].name@
    }

    /// Creates a new cli-application.
    pub fn new() -> (r: Self)
        ensures
            r.spec_name() == Seq::<char>::empty(),
            r.spec_flags() == Seq::<CLIFlag>::empty(),
            r.spec_values() == Seq::<CLIValue>::empty(),
            r.wf(),
    {
        CLIApp { name: String::new(), flags: Vec::new(), values: Vec::new() }
    }

    /// Sets a name for this app.
    pub fn name(self, name: &str) -> (r: Self)
        ensures
            r.spec_name() == name@,
            r.spec_flags() == self.spec_flags(),
            r.spec_values() == self.spec_values(),
    {
        let mut s = self;
        s.name = name.to_owned();
        s
    }

    /// The collision, if any, that bars `new_flag` from registration:
    /// a flag of the same name, or a flag owning one of its
    /// abbreviations, is already defined.
    pub fn flag_conflict(&self, new_flag: &CLIFlag) -> (r: Option<String>)
        ensures
            r is None <==> forall|i: int|
                0 <= i < self.spec_flags().len() ==> distinct_flag_specs(
                    self.spec_flags()[i],
                    *new_flag,
                ),
            r matches Some(m) ==> (exists|i: int|
                0 <= i < self.spec_flags().len() && self.spec_flags()[i].name@ == new_flag.name@
                    && m@ == msg_flag_name_taken(new_flag.name@)) || (exists|
                i: int,
                a: int,
                b: int,
            |
                0 <= i < self.spec_flags().len() && 0 <= a
                    < self.spec_flags()[i].abbr.deep_view().len() && 0 <= b
                    < new_flag.abbr.deep_view().len()
                    && self.spec_flags()[i].abbr.deep_view()[a] == new_flag.abbr.deep_view()[b]
                    && m@ == msg_abbr_taken(
                    new_flag.name@,
                    self.spec_flags()[i].abbr.deep_view()[a],
                    self.spec_flags()[i].name@,
                )),
    {
        let mut i: usize = 0;
        while i < self.flags.len()
            invariant
                i <= self.flags.len(),
                forall|k: int|
                    0 <= k < i ==> distinct_flag_specs(self.spec_flags()[k], *new_flag),
            decreases self.flags.len() - i,
        {
            let prior = &self.flags[i];
            if str_eq(prior.name.as_str(), new_flag.name.as_str()) {
                let mut m = String::from_str("Flag with name \"");
                m.append(new_flag.name.as_str());
                m.append("\" is already defined.");
                proof {
                    assert(self.spec_flags()[i as int].name@ == new_flag.name@);
                    assert(m@ == msg_flag_name_taken(new_flag.name@));
                    assert(!distinct_flag_specs(self.spec_flags()[i as int], *new_flag));
                }
                return Option::Some(m);
            }
            let mut a: usize = 0;
            while a < prior.abbr.len()
                invariant
                    i < self.spec_flags().len(),
                    *prior == self.spec_flags()[i as int],
                    a <= prior.abbr.len(),
                    forall|x: int, b: int|
                        0 <= x < a && 0 <= b < new_flag.abbr.deep_view().len()
                            ==> prior.abbr.deep_view()[x] != new_flag.abbr.deep_view()[b],
                decreases prior.abbr.len() - a,
            {
                let mut b: usize = 0;
                while b < new_flag.abbr.len()
                    invariant
                        i < self.spec_flags().len(),
                        *prior == self.spec_flags()[i as int],
                        b <= new_flag.abbr.len(),
                        forall|y: int|
                            0 <= y < b ==> prior.abbr.deep_view()[a as int]
                                != new_flag.abbr.deep_view()[y],
                        a < prior.abbr.len(),
                    decreases new_flag.abbr.len() - b,
                {
                    if str_eq(prior.abbr[a].as_str(), new_flag.abbr[b].as_str()) {
                        let mut m = String::from_str("Flag with name \"");
                        m.append(new_flag.name.as_str());
                        m.append("\" uses \"");
                        m.append(prior.abbr[a].as_str());
                        m.append("\" which is already in use by \"");
                        m.append(prior.name.as_str());
                        m.append("\".");
                        proof {
                            assert(prior.abbr.deep_view()[a as int]
                                == new_flag.abbr.deep_view()[b as int]);
                            assert(!distinct_flag_specs(self.spec_flags()[i as int], *new_flag));
                            assert(m@ == msg_abbr_taken(
                                new_flag.name@,
                                self.spec_flags()[i as int].abbr.deep_view()[a as int],
                                self.spec_flags()[i as int].name@,
                            ));
                        }
                        return Option::Some(m);
                    }
                    b += 1;
                }
                a += 1;
            }
            i += 1;
        }
        Option::None
    }

    /// Defines a flag. The flag's name and abbreviations must be free,
    /// which `flag_conflict` decides.
    pub fn add_flag(self, new_flag: CLIFlag) -> (r: Self)
        requires
            forall|i: int|
                0 <= i < self.spec_flags().len() ==> distinct_flag_specs(
                    self.spec_flags()[i],
                    new_flag,
                ),
        ensures
            r.spec_name() == self.spec_name(),
            r.spec_flags() == self.spec_flags().push(new_flag),
            r.spec_values() == self.spec_values(),
            self.wf() ==> r.wf(),
    {
        let ghost before = self.spec_flags();
        let ghost was_wf = self.wf();
        let mut s = self;
        s.flags.push(new_flag);
        proof {
            if was_wf {
                assert forall|i: int, j: int|
                    0 <= i < j < s.spec_flags().len() implies distinct_flag_specs(
                    s.spec_flags()[i],
                    s.spec_flags()[j],
                ) by {
                    if j < before.len() {
                        assert(distinct_flag_specs(before[i], before[j]));
                    } else {
                        assert(s.spec_flags()[j] == new_flag);
                        assert(distinct_flag_specs(before[i], new_flag));
                    }
                }
            }
        }
        s
    }

    /// The collision, if any, that bars `val` from registration: a value
    /// of the same name is already defined.
    pub fn value_conflict(&self, val: &CLIValue) -> (r: Option<String>)
        ensures
            r is None <==> forall|i: int|
                0 <= i < self.spec_values().len() ==> self.spec_values()[i].name@ != val.name@,
            r matches Some(m) ==> m@ == msg_value_name_taken(val.name@),
    {
        let mut i: usize = 0;
        while i < self.values.len()
            invariant
                i <= self.values.len(),
                forall|k: int| 0 <= k < i ==> self.spec_values()[k].name@ != val.name@,
            decreases self.values.len() - i,
        {
            if str_eq(self.values[i].name.as_str(), val.name.as_str()) {
                let mut m = String::from_str("Value with name \"");
                m.append(val.name.as_str());
                m.append("\" is already defined.");
                proof {
                    assert(self.spec_values()[i as int].name@ == val.name@);
                }
                return Option::Some(m);
            }
            i += 1;
        }
        Option::None
    }

    /// Adds a new value. The value's name must be free, which
    /// `value_conflict` decides.
    pub fn add_value(self, val: CLIValue) -> (r: Self)
        requires
            forall|i: int|
                0 <= i < self.spec_values().len() ==> self.spec_values()[i].name@ != val.name@,
        ensures
            r.spec_name() == self.spec_name(),
            r.spec_flags() == self.spec_flags(),
            r.spec_values() == self.spec_values().push(val),
            self.wf() ==> r.wf(),
    {
        let ghost before = self.spec_values();
        let ghost before_flags = self.spec_flags();
        let ghost was_wf = self.wf();
        let mut s = self;
        s.values.push(val);
        proof {
            if was_wf {
                assert forall|i: int, j: int|
                    0 <= i < j < s.spec_values().len() implies s.spec_values()[i].name@
                    != s.spec_values()[j].name@ by {
                    if j < before.len() {
                        assert(before[i].name@ != before[j].name@);
                    } else {
                        assert(s.spec_values()[j] == val);
                        assert(before[i].name@ != val.name@);
                    }
                }
                assert forall|i: int, j: int|
                    0 <= i < j < s.spec_flags().len() implies distinct_flag_specs(
                    s.spec_flags()[i],
                    s.spec_flags()[j],
                ) by {
                    assert(distinct_flag_specs(before_flags[i], before_flags[j]));
                }
            }
        }
        s
    }

    /// The index of the first declared flag owning abbreviation `tok`.
    fn find_matching(&self, tok: &str) -> (r: Option<usize>)
        ensures
            match r {
                Option::Some(j) => j < self.spec_flags().len() && find_flag(
                    self.spec_flags(),
                    tok@,
                ) == j as int,
                Option::None => find_flag(self.spec_flags(), tok@) == -1,
            },
    {
        let mut j: usize = 0;
        while j < self.flags.len()
            invariant
                j <= self.flags.len(),
                forall|k: int|
                    0 <= k < j ==> !crate::flag::spec_has_abbr(self.spec_flags()[k], tok@),
            decreases self.flags.len() - j,
        {
            if self.flags[j].has_abbr(tok) {
                proof {
                    lemma_find_flag(self.spec_flags(), tok@);
                    let fi = find_flag(self.spec_flags(), tok@);
                    assert(crate::flag::spec_has_abbr(self.spec_flags()[j as int], tok@));
                    if 0 <= fi < j {
                        assert(!crate::flag::spec_has_abbr(self.spec_flags()[fi], tok@));
                    }
                    if fi > j {
                        assert(!crate::flag::spec_has_abbr(self.spec_flags()[j as int], tok@));
                    }
                }
                return Option::Some(j);
            }
            j += 1;
        }
        proof {
            lemma_find_flag(self.spec_flags(), tok@);
        }
        Option::None
    }

    /// Parses a list of arguments; the first token, the executable
    /// itself, is always skipped. Returns the assembled result, or the
    /// message of the first refusal, exactly as `parse_outcome` lays
    /// the pass down.
    pub fn consume(&self, raw_args: &Vec<String>) -> (r: Result<CLIResult, String>)
        ensures
            match r {
                Result::Ok(res) => {
                    &&& parse_outcome(
                        self.spec_flags(),
                        self.spec_values(),
                        raw_args.deep_view(),
                    ) matches Result::Ok(t)
                    &&& res.spec_values() == t.0
                    &&& res.spec_args() == t.1
                    &&& res.spec_flags() == t.2
                },
                Result::Err(m) => {
                    &&& parse_outcome(
                        self.spec_flags(),
                        self.spec_values(),
                        raw_args.deep_view(),
                    ) matches Result::Err(e)
                    &&& m@ == error_message(e)
                },
            },
    {
        let ghost gf = self.spec_flags();
        let ghost gv = self.spec_values();
        let ghost toks = raw_args.deep_view();

        let mut values = StrMap::new();
        let mut args = StrMap::new();
        let mut flags_found: Vec<String> = Vec::new();
        let mut value_offset: usize = 0;
        let mut i: usize = 1;

        proof {
            assert(flags_found.deep_view() =~= Seq::<Seq<char>>::empty());
            assert(cur_state(values@, args@, flags_found.deep_view(), value_offset as int)
                == initial_state());
        }

        while i < raw_args.len()
            invariant
                1 <= i,
                value_offset <= self.spec_values().len(),
                gf == self.spec_flags(),
                gv == self.spec_values(),
                toks == raw_args.deep_view(),
                toks.len() == raw_args.len(),
                scan_tokens(gf, gv, toks, 1, initial_state()) == scan_tokens(
                    gf,
                    gv,
                    toks,
                    i as int,
                    cur_state(values@, args@, flags_found.deep_view(), value_offset as int),
                ),
            decreases raw_args.len() - i,
        {
            let ghost st = cur_state(
                values@,
                args@,
                flags_found.deep_view(),
                value_offset as int,
            );
            let tok = &raw_args[i];
            proof {
                assert(toks[i as int] == tok@);
            }
            if is_flag_token(tok.as_str()) {
                match self.find_matching(tok.as_str()) {
                    Option::None => {
                        let mut m = String::from_str("Unknown flag: ");
                        m.append(tok.as_str());
                        proof {
                            assert(m@ =~= error_message(ParseError::UnknownFlag(toks[i as int])));
                        }
                        return Result::Err(m);
                    },
                    Option::Some(j) => {
                        let target = &self.flags[j];
                        proof {
                            assert(*target == gf[find_flag(gf, toks[i as int])]);
                        }
                        if target.expects_value {
                            let has_next = i + 1 < raw_args.len();
                            let next_is_value = if has_next {
                                !is_flag_token(raw_args[i + 1].as_str())
                            } else {
                                false
                            };
                            if next_is_value {
                                let val = raw_args[i + 1].clone();
                                proof {
                                    assert(toks[i + 1] == val@);
                                }
                                match target.validator.check(val.as_str()) {
                                    Result::Err(m) => {
                                        return Result::Err(m);
                                    },
                                    Result::Ok(_) => {},
                                }
                                args.insert(target.name.clone(), val);
                                proof {
                                    assert(scan_tokens(gf, gv, toks, i as int, st) == scan_tokens(
                                        gf,
                                        gv,
                                        toks,
                                        i + 2,
                                        cur_state(
                                            values@,
                                            args@,
                                            flags_found.deep_view(),
                                            value_offset as int,
                                        ),
                                    ));
                                }
                                i += 2;
                            } else {
                                match target.resolve_default(&args) {
                                    Option::None => {
                                        let mut m = String::from_str("Flag ");
                                        m.append(tok.as_str());
                                        m.append(" expects a value.");
                                        proof {
                                            assert(m@ =~= error_message(
                                                ParseError::MissingFlagValue(toks[i as int]),
                                            ));
                                        }
                                        return Result::Err(m);
                                    },
                                    Option::Some(val) => {
                                        match target.validator.check(val.as_str()) {
                                            Result::Err(m) => {
                                                return Result::Err(m);
                                            },
                                            Result::Ok(_) => {},
                                        }
                                        args.insert(target.name.clone(), val);
                                        proof {
                                            assert(scan_tokens(gf, gv, toks, i as int, st)
                                                == scan_tokens(
                                                gf,
                                                gv,
                                                toks,
                                                i + 1,
                                                cur_state(
                                                    values@,
                                                    args@,
                                                    flags_found.deep_view(),
                                                    value_offset as int,
                                                ),
                                            ));
                                        }
                                        i += 1;
                                    },
                                }
                            }
                        } else {
                            flags_found.push(target.name.clone());
                            proof {
                                assert(flags_found.deep_view() =~= st.flags.push(
                                    gf[find_flag(gf, toks[i as int])].name@,
                                ));
                                assert(scan_tokens(gf, gv, toks, i as int, st) == scan_tokens(
                                    gf,
                                    gv,
                                    toks,
                                    i + 1,
                                    cur_state(
                                        values@,
                                        args@,
                                        flags_found.deep_view(),
                                        value_offset as int,
                                    ),
                                ));
                            }
                            i += 1;
                        }
                    },
                }
            } else {
                if value_offset == self.values.len() {
                    let mut m = String::from_str("Too many values. Maximum is ");
                    let max = decimal_string(self.values.len());
                    m.append(max.as_str());
                    m.append(" but got ");
                    m.append(tok.as_str());
                    m.append(" as last one.");
                    proof {
                        assert(m@ =~= error_message(ParseError::TooManyValues(
                            gv.len() as int,
                            toks[i as int],
                        )));
                    }
                    return Result::Err(m);
                }
                let bind_to = &self.values[value_offset];
                values.insert(bind_to.name.clone(), tok.clone());
                value_offset += 1;
                proof {
                    assert(scan_tokens(gf, gv, toks, i as int, st) == scan_tokens(
                        gf,
                        gv,
                        toks,
                        i + 1,
                        cur_state(
                            values@,
                            args@,
                            flags_found.deep_view(),
                            value_offset as int,
                        ),
                    ));
                }
                i += 1;
            }
        }

        let ghost scanned = cur_state(
            values@,
            args@,
            flags_found.deep_view(),
            value_offset as int,
        );
        proof {
            assert(scan_tokens(gf, gv, toks, 1, initial_state()) == Result::<
                ParseState,
                ParseError,
            >::Ok(scanned));
        }

        // Fill in the defaults of value-expecting flags that never
        // appeared, earlier flags' defaults visible to later ones.
        let ghost args_scanned = args@;
        proof {
            assert(gf.skip(0) =~= gf);
        }
        let mut k: usize = 0;
        while k < self.flags.len()
            invariant
                k <= self.spec_flags().len(),
                gf == self.spec_flags(),
                gv == self.spec_values(),
                toks == raw_args.deep_view(),
                scan_tokens(gf, gv, toks, 1, initial_state()) == Result::<
                    ParseState,
                    ParseError,
                >::Ok(scanned),
                scanned == cur_state(
                    values@,
                    args_scanned,
                    flags_found.deep_view(),
                    scanned.next_value,
                ),
                apply_flag_defaults(gf, args_scanned) == apply_flag_defaults(
                    gf.skip(k as int),
                    args@,
                ),
            decreases self.flags.len() - k,
        {
            let ghost before = args@;
            let f = &self.flags[k];
            if f.expects_value && !args.contains_key(f.name.as_str()) {
                match f.resolve_default(&args) {
                    Option::Some(v) => {
                        args.insert(f.name.clone(), v);
                    },
                    Option::None => {},
                }
            }
            proof {
                assert(args@ == apply_one_flag_default(gf[k as int], before));
                assert(gf.skip(k as int).skip(1) =~= gf.skip(k + 1));
                assert(gf.skip(k as int)[0] == gf[k as int]);
                assert(apply_flag_defaults(gf.skip(k as int), before) == apply_flag_defaults(
                    gf.skip(k + 1),
                    args@,
                ));
            }
            k += 1;
        }
        proof {
            assert(gf.skip(gf.len() as int) =~= Seq::<CLIFlag>::empty());
            assert(apply_flag_defaults(gf, args_scanned) == args@);
        }

        // Validate the bound values, fill in defaults of unbound ones,
        // and refuse a required value that is still missing.
        let ghost values_scanned = values@;
        proof {
            assert(gv.skip(0) =~= gv);
        }
        let mut n: usize = 0;
        while n < self.values.len()
            invariant
                n <= self.spec_values().len(),
                gf == self.spec_flags(),
                gv == self.spec_values(),
                toks == raw_args.deep_view(),
                scan_tokens(gf, gv, toks, 1, initial_state()) == Result::<
                    ParseState,
                    ParseError,
                >::Ok(scanned),
                scanned == cur_state(
                    values_scanned,
                    args_scanned,
                    flags_found.deep_view(),
                    scanned.next_value,
                ),
                apply_flag_defaults(gf, args_scanned) == args@,
                settle_values(gv, values_scanned) == settle_values(gv.skip(n as int), values@),
            decreases self.values.len() - n,
        {
            let ghost before = values@;
            let val_spec = &self.values[n];
            proof {
                assert(gv.skip(n as int)[0] == gv[n as int]);
                assert(gv.skip(n as int).skip(1) =~= gv.skip(n + 1));
            }
            let bound = values.contains_key(val_spec.name.as_str());
            if bound {
                match &val_spec.validator {
                    Option::Some(c) => {
                        match values.get(val_spec.name.as_str()) {
                            Option::Some(b) => {
                                match c.check(b.as_str()) {
                                    Result::Err(m) => {
                                        proof {
                                            assert(settle_values(gv.skip(n as int), before)
                                                == Result::<
                                                Map<Seq<char>, Seq<char>>,
                                                ParseError,
                                            >::Err(ParseError::Invalid(
                                                crate::flag::check_message(*c),
                                            )));
                                        }
                                        return Result::Err(m);
                                    },
                                    Result::Ok(_) => {},
                                }
                            },
                            Option::None => {
                                proof {
                                    assert(false);
                                }
                            },
                        }
                    },
                    Option::None => {},
                }
            } else {
                let resolved = match &val_spec.default {
                    Option::None => Option::None,
                    Option::Some(d) => d.resolve(&values),
                };
                match resolved {
                    Option::Some(dv) => {
                        values.insert(val_spec.name.clone(), dv);
                    },
                    Option::None => {
                        if val_spec.required {
                            let mut m = String::from_str("Missing value labeled \"");
                            m.append(val_spec.name.as_str());
                            m.append("\"");
                            proof {
                                assert(settle_values(gv.skip(n as int), before) == Result::<
                                    Map<Seq<char>, Seq<char>>,
                                    ParseError,
                                >::Err(ParseError::MissingValue(gv[n as int].name@)));
                                assert(m@ =~= error_message(ParseError::MissingValue(
                                    gv[n as int].name@,
                                )));
                            }
                            return Result::Err(m);
                        }
                    },
                }
            }
            proof {
                assert(settle_values(gv.skip(n as int), before) == settle_values(
                    gv.skip(n + 1),
                    values@,
                ));
            }
            n += 1;
        }
        proof {
            assert(gv.skip(gv.len() as int) =~= Seq::<CLIValue>::empty());
            assert(settle_values(gv, values_scanned) == Result::<
                Map<Seq<char>, Seq<char>>,
                ParseError,
            >::Ok(values@));
        }

        Result::Ok(CLIResult::from(values, args, flags_found))
    }

    /// Creates a usage-description out of the currently defined
    /// attributes.
    pub fn usage_description(&self) -> (r: String)
        ensures
            r@ == spec_usage_description(self),
    {
        let mut desc = String::from_str("Usage: ");
        desc.append(self.name.as_str());
        let mut i: usize = 0;
        while i < self.values.len()
            invariant
                i <= self.spec_values().len(),
                desc@ == "Usage: "@ + self.spec_name() + values_usage_seq(
                    self.spec_values().take(i as int),
                ),
            decreases self.values.len() - i,
        {
            let (name, _) = self.values[i].stringify();
            desc.append(" <");
            desc.append(name.as_str());
            desc.append(">");
            proof {
                let vs = self.spec_values();
                assert(vs.take(i + 1).drop_last() =~= vs.take(i as int));
                assert(vs.take(i + 1).last() == vs[i as int]);
                assert(desc@ =~= "Usage: "@ + self.spec_name() + values_usage_seq(
                    vs.take(i + 1),
                ));
            }
            i += 1;
        }
        proof {
            assert(self.spec_values().take(self.spec_values().len() as int)
                =~= self.spec_values());
        }
        if self.flags.len() == 1 {
            desc.append(" [options]");
        } else if self.flags.len() > 1 {
            desc.append(" [options...]");
        }
        proof {
            assert(desc@ =~= spec_usage_description(self));
        }
        desc
    }

    /// The width help lines align to: the longest left-hand side among
    /// flag usages and value names.
    pub fn longest_left_side(&self) -> (r: usize)
        ensures
            r as nat == spec_longest(self),
    {
        let mut longest: usize = 0;
        let mut i: usize = 0;
        proof {
            assert(self.spec_flags().take(0) =~= Seq::<CLIFlag>::empty());
        }
        while i < self.flags.len()
            invariant
                i <= self.spec_flags().len(),
                longest as nat == max_usage_len(self.spec_flags().take(i as int)),
            decreases self.flags.len() - i,
        {
            let (usage, _) = self.flags[i].stringify();
            let len = usage.as_str().unicode_len();
            if len > longest {
                longest = len;
            }
            proof {
                let fs = self.spec_flags();
                assert(fs.take(i + 1).drop_last() =~= fs.take(i as int));
                assert(fs.take(i + 1).last() == fs[i as int]);
            }
            i += 1;
        }
        proof {
            assert(self.spec_flags().take(self.spec_flags().len() as int) =~= self.spec_flags());
            assert(self.spec_values().take(0) =~= Seq::<CLIValue>::empty());
        }
        let ghost flags_longest = longest as nat;
        let mut j: usize = 0;
        while j < self.values.len()
            invariant
                j <= self.spec_values().len(),
                flags_longest == max_usage_len(self.spec_flags()),
                longest as nat == (if flags_longest > max_value_len(
                    self.spec_values().take(j as int),
                ) {
                    flags_longest
                } else {
                    max_value_len(self.spec_values().take(j as int))
                }),
            decreases self.values.len() - j,
        {
            let (name, _) = self.values[j].stringify();
            let len = name.as_str().unicode_len();
            if len > longest {
                longest = len;
            }
            proof {
                let vs = self.spec_values();
                assert(vs.take(j + 1).drop_last() =~= vs.take(j as int));
                assert(vs.take(j + 1).last() == vs[j as int]);
            }
            j += 1;
        }
        proof {
            assert(self.spec_values().take(self.spec_values().len() as int)
                =~= self.spec_values());
        }
        longest
    }

    /// Whether one of the flags belongs to the given group.
    fn has_flag_entry(&self, with_value: bool) -> (r: bool)
        ensures
            r == (flag_entries(self.spec_flags(), with_value).len() > 0),
    {
        let mut i: usize = 0;
        while i < self.flags.len()
            invariant
                i <= self.spec_flags().len(),
                forall|k: int|
                    0 <= k < i ==> self.spec_flags()[k].expects_value != with_value,
            decreases self.flags.len() - i,
        {
            if self.flags[i].expects_value == with_value {
                proof {
                    lemma_flag_entries_empty(self.spec_flags(), with_value);
                }
                return true;
            }
            i += 1;
        }
        proof {
            lemma_flag_entries_empty(self.spec_flags(), with_value);
        }
        false
    }

    /// Appends one group of flags as a help section.
    fn append_flag_section(&self, out: &mut String, with_value: bool, title: &str, width: usize)
        ensures
            final(out)@ == old(out)@ + spec_section(
                title@,
                flag_entries(self.spec_flags(), with_value),
                width as nat,
            ),
    {
        let ghost base = out@;
        if !self.has_flag_entry(with_value) {
            proof {
                assert(base + spec_section(
                    title@,
                    flag_entries(self.spec_flags(), with_value),
                    width as nat,
                ) =~= base);
            }
            return;
        }
        out.append("\n");
        out.append(title);
        out.append("\n");
        proof {
            assert(self.spec_flags().take(0) =~= Seq::<CLIFlag>::empty());
        }
        let mut i: usize = 0;
        while i < self.flags.len()
            invariant
                i <= self.spec_flags().len(),
                flag_entries(self.spec_flags(), with_value).len() > 0,
                out@ == base + "\n"@ + title@ + "\n"@ + section_lines(
                    flag_entries(self.spec_flags().take(i as int), with_value),
                    width as nat,
                ),
            decreases self.flags.len() - i,
        {
            let f = &self.flags[i];
            proof {
                let fs = self.spec_flags();
                assert(fs.take(i + 1).drop_last() =~= fs.take(i as int));
                assert(fs.take(i + 1).last() == fs[i as int]);
            }
            if f.expects_value == with_value {
                let (usage, flag_desc) = f.stringify();
                let padded = pad_to(&usage, width);
                out.append("  ");
                out.append(padded.as_str());
                out.append("  ");
                out.append(flag_desc.as_str());
                out.append("\n");
                proof {
                    let fs = self.spec_flags();
                    let es = flag_entries(fs.take(i as int), with_value);
                    let entry = (spec_flag_usage(&fs[i as int]), fs[i as int].description@);
                    assert(flag_entries(fs.take(i + 1), with_value) == es.push(entry));
                    assert(es.push(entry).drop_last() =~= es);
                    assert(es.push(entry).last() == entry);
                    assert(out@ =~= base + "\n"@ + title@ + "\n"@ + section_lines(
                        flag_entries(fs.take(i + 1), with_value),
                        width as nat,
                    ));
                }
            } else {
                proof {
                    assert(flag_entries(self.spec_flags().take(i + 1), with_value)
                        == flag_entries(self.spec_flags().take(i as int), with_value));
                }
            }
            i += 1;
        }
        proof {
            assert(self.spec_flags().take(self.spec_flags().len() as int) =~= self.spec_flags());
            assert(out@ =~= base + spec_section(
                title@,
                flag_entries(self.spec_flags(), with_value),
                width as nat,
            ));
        }
    }

    /// Appends the declared values as a help section.
    fn append_values_section(&self, out: &mut String, title: &str, width: usize)
        ensures
            final(out)@ == old(out)@ + spec_section(
                title@,
                value_entries(self.spec_values()),
                width as nat,
            ),
    {
        let ghost base = out@;
        proof {
            lemma_value_entries_len(self.spec_values());
        }
        if self.values.len() == 0 {
            proof {
                assert(base + spec_section(
                    title@,
                    value_entries(self.spec_values()),
                    width as nat,
                ) =~= base);
            }
            return;
        }
        out.append("\n");
        out.append(title);
        out.append("\n");
        proof {
            assert(self.spec_values().take(0) =~= Seq::<CLIValue>::empty());
        }
        let mut i: usize = 0;
        while i < self.values.len()
            invariant
                i <= self.spec_values().len(),
                self.spec_values().len() > 0,
                out@ == base + "\n"@ + title@ + "\n"@ + section_lines(
                    value_entries(self.spec_values().take(i as int)),
                    width as nat,
                ),
            decreases self.values.len() - i,
        {
            let v = &self.values[i];
            proof {
                let vs = self.spec_values();
                assert(vs.take(i + 1).drop_last() =~= vs.take(i as int));
                assert(vs.take(i + 1).last() == vs[i as int]);
            }
            let (name, value_desc) = v.stringify();
            let wrapped = name.wrap_into("<", ">");
            let padded = pad_to(&wrapped, width);
            out.append("  ");
            out.append(padded.as_str());
            out.append("  ");
            out.append(value_desc.as_str());
            out.append("\n");
            proof {
                let vs = self.spec_values();
                let es = value_entries(vs.take(i as int));
                let entry = (
                    wrapped_value_name(spec_value_usage(&vs[i as int])),
                    vs[i as int].description@,
                );
                assert(value_entries(vs.take(i + 1)) == es.push(entry));
                assert(es.push(entry).drop_last() =~= es);
                assert(es.push(entry).last() == entry);
                assert(out@ =~= base + "\n"@ + title@ + "\n"@ + section_lines(
                    value_entries(vs.take(i + 1)),
                    width as nat,
                ));
            }
            i += 1;
        }
        proof {
            lemma_value_entries_len(self.spec_values());
            assert(self.spec_values().take(self.spec_values().len() as int)
                =~= self.spec_values());
            assert(out@ =~= base + spec_section(
                title@,
                value_entries(self.spec_values()),
                width as nat,
            ));
        }
    }

    /// The full help text: the usage line followed by the aligned
    /// sections for value-less flags, value-taking flags and values.
    pub fn help_text(&self) -> (r: String)
        ensures
            r@ == spec_help_text(self),
    {
        let mut out = self.usage_description();
        out.append("\n");
        let width = self.longest_left_side();
        self.append_flag_section(&mut out, false, "Flags:", width);
        self.append_flag_section(&mut out, true, "Arguments:", width);
        self.append_values_section(&mut out, "Values:", width);
        proof {
            assert(out@ =~= spec_help_text(self));
        }
        out
    }
}

/// The length of the longest usage string among the flags.
pub open spec fn max_usage_len(flags: Seq<CLIFlag>) -> nat
    decreases flags.len(),
{
    if flags.len() == 0 {
        0
    } else {
        let l = spec_flag_usage(&flags.last()).len();
        let m = max_usage_len(flags.drop_last());
        if l > m {
            l
        } else {
            m
        }
    }
}

/// The length of the longest rendered name among the values.
pub open spec fn max_value_len(vals: Seq<CLIValue>) -> nat
    decreases vals.len(),
{
    if vals.len() == 0 {
        0
    } else {
        let l = spec_value_usage(&vals.last()).len();
        let m = max_value_len(vals.drop_last());
        if l > m {
            l
        } else {
            m
        }
    }
}

/// The width all help lines are padded to: the longest left-hand side
/// across flags and values.
pub open spec fn spec_longest(app: &CLIApp) -> nat {
    let f = max_usage_len(app.spec_flags());
    let v = max_value_len(app.spec_values());
    if f > v {
        f
    } else {
        v
    }
}

/// One help line: two spaces, the padded left-hand side, two spaces,
/// the description.
pub open spec fn help_line(left: Seq<char>, desc: Seq<char>, width: nat) -> Seq<char> {
    "  "@ + crate::strutil::pad_spec(left, width) + "  "@ + desc + "\n"@
}

/// The left-hand sides and descriptions of the flags of one group:
/// value-taking or not.
pub open spec fn flag_entries(flags: Seq<CLIFlag>, with_value: bool) -> Seq<
    (Seq<char>, Seq<char>),
>
    decreases flags.len(),
{
    if flags.len() == 0 {
        Seq::empty()
    } else {
        let rest = flag_entries(flags.drop_last(), with_value);
        if flags.last().expects_value == with_value {
            rest.push((spec_flag_usage(&flags.last()), flags.last().description@))
        } else {
            rest
        }
    }
}

/// A rendered value name put between angle brackets, unless already so.
pub open spec fn wrapped_value_name(u: Seq<char>) -> Seq<char> {
    if crate::wrap::spec_wrapped_in(u, "<"@, ">"@) {
        u
    } else {
        "<"@ + u + ">"@
    }
}

/// The left-hand sides and descriptions of the declared values.
pub open spec fn value_entries(vals: Seq<CLIValue>) -> Seq<(Seq<char>, Seq<char>)>
    decreases vals.len(),
{
    if vals.len() == 0 {
        Seq::empty()
    } else {
        value_entries(vals.drop_last()).push(
            (wrapped_value_name(spec_value_usage(&vals.last())), vals.last().description@),
        )
    }
}

/// The lines of one help section, in order.
pub open spec fn section_lines(entries: Seq<(Seq<char>, Seq<char>)>, width: nat) -> Seq<char>
    decreases entries.len(),
{
    if entries.len() == 0 {
        Seq::empty()
    } else {
        section_lines(entries.drop_last(), width) + help_line(
            entries.last().0,
            entries.last().1,
            width,
        )
    }
}

/// One help section: a blank line, the title, and the entry lines; an
/// empty section is omitted entirely.
pub open spec fn spec_section(
    title: Seq<char>,
    entries: Seq<(Seq<char>, Seq<char>)>,
    width: nat,
) -> Seq<char> {
    if entries.len() == 0 {
        Seq::empty()
    } else {
        "\n"@ + title + "\n"@ + section_lines(entries, width)
    }
}

/// The whole help text: the usage line, then the value-less flags, the
/// value-taking flags, and the declared values, each group under its
/// title and aligned to the longest left-hand side.
pub open spec fn spec_help_text(app: &CLIApp) -> Seq<char> {
    spec_usage_description(app) + "\n"@ + spec_section(
        "Flags:"@,
        flag_entries(app.spec_flags(), false),
        spec_longest(app),
    ) + spec_section("Arguments:"@, flag_entries(app.spec_flags(), true), spec_longest(app))
        + spec_section("Values:"@, value_entries(app.spec_values()), spec_longest(app))
}

proof fn lemma_flag_entries_empty(flags: Seq<CLIFlag>, with_value: bool)
    ensures
        (flag_entries(flags, with_value).len() == 0) <==> (forall|i: int|
            0 <= i < flags.len() ==> flags[i].expects_value != with_value),
    decreases flags.len(),
{
    if flags.len() > 0 {
        lemma_flag_entries_empty(flags.drop_last(), with_value);
        assert(forall|i: int|
            0 <= i < flags.len() - 1 ==> flags.drop_last()[i] == flags[i]);
    }
}

proof fn lemma_value_entries_len(vals: Seq<CLIValue>)
    ensures
        value_entries(vals).len() == vals.len(),
    decreases vals.len(),
{
    if vals.len() > 0 {
        lemma_value_entries_len(vals.drop_last());
    }
}

/// The report for a flag name already defined.
pub open spec fn msg_flag_name_taken(n: Seq<char>) -> Seq<char> {
    "Flag with name \""@ + n + "\" is already defined."@
}

/// The report for an abbreviation already owned by an earlier flag.
pub open spec fn msg_abbr_taken(n: Seq<char>, abbr: Seq<char>, prior: Seq<char>) -> Seq<char> {
    "Flag with name \""@ + n + "\" uses \""@ + abbr + "\" which is already in use by \""@
        + prior + "\"."@
}

/// The report for a value name already defined.
pub open spec fn msg_value_name_taken(n: Seq<char>) -> Seq<char> {
    "Value with name \""@ + n + "\" is already defined."@
}

/// The pass state assembled from the parser's working data.
pub open spec fn cur_state(
    values: Map<Seq<char>, Seq<char>>,
    args: Map<Seq<char>, Seq<char>>,
    flags: Seq<Seq<char>>,
    next_value: int,
) -> ParseState {
    ParseState { values, args, flags, next_value }
}

/// The rendered positional parts of the usage line.
pub open spec fn values_usage_seq(vals: Seq<CLIValue>) -> Seq<char>
    decreases vals.len(),
{
    if vals.len() == 0 {
        Seq::empty()
    } else {
        values_usage_seq(vals.drop_last()) + " <"@ + spec_value_usage(&vals.last()) + ">"@
    }
}

/// The whole usage line: program name, positional parts, and an options
/// marker when flags are declared.
pub open spec fn spec_usage_description(app: &CLIApp) -> Seq<char> {
    "Usage: "@ + app.spec_name() + values_usage_seq(app.spec_values()) + (
    if app.spec_flags().len() == 0 {
        Seq::<char>::empty()
    } else if app.spec_flags().len() == 1 {
        " [options]"@
    } else {
        " [options...]"@
    })
}

} // verus!
