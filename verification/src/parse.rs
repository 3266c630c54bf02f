use vstd::prelude::*;

use crate::flag::{check_message, check_passes, eval_default, spec_has_abbr, CLIFlag};
use crate::strutil::{dec_seq, spec_is_flag_token};
use crate::value::CLIValue;

verus! {

/// The state a single left-to-right pass accumulates: resolved positional
/// values, resolved flag arguments, the value-less flags seen so far, and
/// the index of the next positional slot to fill.
pub struct ParseState {
    pub values: Map<Seq<char>, Seq<char>>,
    pub args: Map<Seq<char>, Seq<char>>,
    pub flags: Seq<Seq<char>>,
    pub next_value: int,
}

/// The state before any token is read.
pub open spec fn initial_state() -> ParseState {
    ParseState {
        values: Map::empty(),
        args: Map::empty(),
        flags: Seq::empty(),
        next_value: 0,
    }
}

/// The ways a parse is refused; each carries what its message reports.
pub enum ParseError {
    /// A dash token matching no declared abbreviation.
    UnknownFlag(Seq<char>),
    /// A value-expecting flag with neither a following value nor a default.
    MissingFlagValue(Seq<char>),
    /// A value rejected by a validation rule, with the rule's message.
    Invalid(Seq<char>),
    /// A positional token beyond the declared slots: the number of slots
    /// and the offending token.
    TooManyValues(int, Seq<char>),
    /// A required positional value that was neither supplied nor defaulted.
    MissingValue(Seq<char>),
}

/// The message each refusal is reported with.
pub open spec fn error_message(e: ParseError) -> Seq<char> {
    match e {
        ParseError::UnknownFlag(t) => "Unknown flag: "@ + t,
        ParseError::MissingFlagValue(t) => "Flag "@ + t + " expects a value."@,
        ParseError::Invalid(m) => m,
        ParseError::TooManyValues(max, t) => "Too many values. Maximum is "@ + dec_seq(
            max as nat,
        ) + " but got "@ + t + " as last one."@,
        ParseError::MissingValue(n) => "Missing value labeled \""@ + n + "\""@,
    }
}

/// The index of the first flag owning abbreviation `tok`, or -1.
pub open spec fn find_flag(flags: Seq<CLIFlag>, tok: Seq<char>) -> int
    decreases flags.len(),
{
    if flags.len() == 0 {
        -1
    } else if spec_has_abbr(flags[0], tok) {
        0
    } else {
        let r = find_flag(flags.skip(1), tok);
        if r == -1 {
            -1
        } else {
            r + 1
        }
    }
}

pub proof fn lemma_find_flag(flags: Seq<CLIFlag>, tok: Seq<char>)
    ensures
        -1 <= find_flag(flags, tok) < flags.len(),
        find_flag(flags, tok) >= 0 ==> spec_has_abbr(flags[find_flag(flags, tok)], tok),
        forall|j: int| 0 <= j < find_flag(flags, tok) ==> !spec_has_abbr(flags[j], tok),
        find_flag(flags, tok) == -1 ==> forall|j: int|
            0 <= j < flags.len() ==> !spec_has_abbr(flags[j], tok),
    decreases flags.len(),
{
    if flags.len() > 0 && !spec_has_abbr(flags[0], tok) {
        lemma_find_flag(flags.skip(1), tok);
        assert forall|j: int| 1 <= j < flags.len() implies spec_has_abbr(flags[j], tok)
            == spec_has_abbr(flags.skip(1)[j - 1], tok) by {
            assert(flags.skip(1)[j - 1] == flags[j]);
        }
    }
}

/// One pass over the tokens from index `i` on, with one token of
/// lookahead, as the parser performs it.
pub open spec fn scan_tokens(
    flags: Seq<CLIFlag>,
    values: Seq<CLIValue>,
    toks: Seq<Seq<char>>,
    i: int,
    st: ParseState,
) -> Result<ParseState, ParseError>
    decreases toks.len() - i,
{
    if i >= toks.len() {
        Result::Ok(st)
    } else {
        let tok = toks[i];
        if spec_is_flag_token(tok) {
            let fi = find_flag(flags, tok);
            if fi == -1 {
                Result::Err(ParseError::UnknownFlag(tok))
            } else {
                let f = flags[fi];
                if f.expects_value {
                    if i + 1 < toks.len() && !spec_is_flag_token(toks[i + 1]) {
                        let v = toks[i + 1];
                        if check_passes(f.validator, v) {
                            scan_tokens(
                                flags,
                                values,
                                toks,
                                i + 2,
                                ParseState { args: st.args.insert(f.name@, v), ..st },
                            )
                        } else {
                            Result::Err(ParseError::Invalid(check_message(f.validator)))
                        }
                    } else {
                        match eval_default(f.default, st.args) {
                            Option::None => Result::Err(ParseError::MissingFlagValue(tok)),
                            Option::Some(v) => if check_passes(f.validator, v) {
                                scan_tokens(
                                    flags,
                                    values,
                                    toks,
                                    i + 1,
                                    ParseState { args: st.args.insert(f.name@, v), ..st },
                                )
                            } else {
                                Result::Err(ParseError::Invalid(check_message(f.validator)))
                            },
                        }
                    }
                } else {
                    scan_tokens(
                        flags,
                        values,
                        toks,
                        i + 1,
                        ParseState { flags: st.flags.push(f.name@), ..st },
                    )
                }
            }
        } else {
            if st.next_value >= values.len() {
                Result::Err(ParseError::TooManyValues(values.len() as int, tok))
            } else {
                scan_tokens(
                    flags,
                    values,
                    toks,
                    i + 1,
                    ParseState {
                        values: st.values.insert(values[st.next_value].name@, tok),
                        next_value: st.next_value + 1,
                        ..st
                    },
                )
            }
        }
    }
}

/// What the post-pass adds for one flag: a value-expecting flag not yet
/// resolved receives its default, evaluated against the arguments
/// resolved so far.
pub open spec fn apply_one_flag_default(
    f: CLIFlag,
    args: Map<Seq<char>, Seq<char>>,
) -> Map<Seq<char>, Seq<char>> {
    if f.expects_value && !args.contains_key(f.name@) {
        match eval_default(f.default, args) {
            Option::Some(v) => args.insert(f.name@, v),
            Option::None => args,
        }
    } else {
        args
    }
}

/// The post-pass over the flags in declaration order: earlier flags'
/// defaults are visible to later ones.
pub open spec fn apply_flag_defaults(
    flags: Seq<CLIFlag>,
    args: Map<Seq<char>, Seq<char>>,
) -> Map<Seq<char>, Seq<char>>
    decreases flags.len(),
{
    if flags.len() == 0 {
        args
    } else {
        apply_flag_defaults(flags.skip(1), apply_one_flag_default(flags[0], args))
    }
}

/// The post-pass over the declared positional values in order: a bound
/// value is validated; an unbound one is defaulted against the values
/// resolved so far, or refused when it is required.
pub open spec fn settle_values(
    values: Seq<CLIValue>,
    m: Map<Seq<char>, Seq<char>>,
) -> Result<Map<Seq<char>, Seq<char>>, ParseError>
    decreases values.len(),
{
    if values.len() == 0 {
        Result::Ok(m)
    } else {
        let v = values[0];
        if m.contains_key(v.name@) {
            match v.validator {
                Option::Some(c) => if check_passes(c, m[v.name@]) {
                    settle_values(values.skip(1), m)
                } else {
                    Result::Err(ParseError::Invalid(check_message(c)))
                },
                Option::None => settle_values(values.skip(1), m),
            }
        } else {
            match eval_default(v.default, m) {
                Option::Some(d) => settle_values(values.skip(1), m.insert(v.name@, d)),
                Option::None => if v.required {
                    Result::Err(ParseError::MissingValue(v.name@))
                } else {
                    settle_values(values.skip(1), m)
                },
            }
        }
    }
}

/// The outcome of a whole parse: the token pass from index 1 (the first
/// token is the executable itself), then the flag-default post-pass,
/// then the positional post-pass.
pub open spec fn parse_outcome(
    flags: Seq<CLIFlag>,
    values: Seq<CLIValue>,
    toks: Seq<Seq<char>>,
) -> Result<(Map<Seq<char>, Seq<char>>, Map<Seq<char>, Seq<char>>, Seq<Seq<char>>), ParseError> {
    match scan_tokens(flags, values, toks, 1, initial_state()) {
        Result::Err(e) => Result::Err(e),
        Result::Ok(st) => {
            let full_args = apply_flag_defaults(flags, st.args);
            match settle_values(values, st.values) {
                Result::Err(e) => Result::Err(e),
                Result::Ok(vm) => Result::Ok((vm, full_args, st.flags)),
            }
        },
    }
}

} // verus!
