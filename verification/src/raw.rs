use vstd::prelude::*;

use crate::strmap::StrMap;
use crate::strutil::{is_flag_token, spec_is_flag_token};

verus! {

/// The three kinds of raw command-line tokens, sorted but not
/// interpreted against any declaration.
pub struct RawArguments {
    /// Flags with values attached to them: `-flag value -flag2 value2`.
    pub args: StrMap,
    /// Stand-alone values: `a b c d`.
    pub values: Vec<String>,
    /// Stand-alone flags: `-flag1 --flag2`.
    pub flags: Vec<String>,
}

/// The state the raw pass accumulates.
pub struct RawState {
    pub args: Map<Seq<char>, Seq<char>>,
    pub values: Seq<Seq<char>>,
    pub flags: Seq<Seq<char>>,
}

/// The raw pass over the tokens from index `i` on: a dash token
/// followed by a non-dash token takes it as its value; a dash token
/// without one is a stand-alone flag; anything else is a value.
pub open spec fn raw_scan(toks: Seq<Seq<char>>, i: int, st: RawState) -> RawState
    decreases toks.len() - i,
{
    if i >= toks.len() {
        st
    } else {
        let tok = toks[i];
        if spec_is_flag_token(tok) {
            if i + 1 < toks.len() && !spec_is_flag_token(toks[i + 1]) {
                raw_scan(
                    toks,
                    i + 2,
                    RawState { args: st.args.insert(tok, toks[i + 1]), ..st },
                )
            } else {
                raw_scan(toks, i + 1, RawState { flags: st.flags.push(tok), ..st })
            }
        } else {
            raw_scan(toks, i + 1, RawState { values: st.values.push(tok), ..st })
        }
    }
}

/// The raw pass over a whole token list, the first token skipped.
pub open spec fn raw_outcome(toks: Seq<Seq<char>>) -> RawState {
    raw_scan(
        toks,
        1,
        RawState { args: Map::empty(), values: Seq::empty(), flags: Seq::empty() },
    )
}

/// Sorts raw command-line tokens into attached arguments, stand-alone
/// values and stand-alone flags; the first token, the executable
/// itself, is always skipped.
pub fn parse_raw_args(raw_args: &Vec<String>) -> (r: RawArguments)
    ensures
        r.args@ == raw_outcome(raw_args.deep_view()).args,
        r.values.deep_view() == raw_outcome(raw_args.deep_view()).values,
        r.flags.deep_view() == raw_outcome(raw_args.deep_view()).flags,
{
    let ghost toks = raw_args.deep_view();
    let mut args = StrMap::new();
    let mut values: Vec<String> = Vec::new();
    let mut flags: Vec<String> = Vec::new();
    let mut i: usize = 1;

    proof {
        assert(values.deep_view() =~= Seq::<Seq<char>>::empty());
        assert(flags.deep_view() =~= Seq::<Seq<char>>::empty());
    }

    while i < raw_args.len()
        invariant
            1 <= i,
            toks == raw_args.deep_view(),
            toks.len() == raw_args.len(),
            raw_outcome(toks) == raw_scan(
                toks,
                i as int,
                RawState { args: args@, values: values.deep_view(), flags: flags.deep_view() },
            ),
        decreases raw_args.len() - i,
    {
        let ghost st = RawState {
            args: args@,
            values: values.deep_view(),
            flags: flags.deep_view(),
        };
        let tok = &raw_args[i];
        proof {
            assert(toks[i as int] == tok@);
        }
        if is_flag_token(tok.as_str()) {
            let takes_next = if i + 1 < raw_args.len() {
                !is_flag_token(raw_args[i + 1].as_str())
            } else {
                false
            };
            if takes_next {
                args.insert(tok.clone(), raw_args[i + 1].clone());
                proof {
                    assert(raw_scan(toks, i as int, st) == raw_scan(
                        toks,
                        i + 2,
                        RawState {
                            args: args@,
                            values: values.deep_view(),
                            flags: flags.deep_view(),
                        },
                    ));
                }
                i += 2;
            } else {
                flags.push(tok.clone());
                proof {
                    assert(flags.deep_view() =~= st.flags.push(toks[i as int]));
                    assert(raw_scan(toks, i as int, st) == raw_scan(
                        toks,
                        i + 1,
                        RawState {
                            args: args@,
                            values: values.deep_view(),
                            flags: flags.deep_view(),
                        },
                    ));
                }
                i += 1;
            }
        } else {
            values.push(tok.clone());
            proof {
                assert(values.deep_view() =~= st.values.push(toks[i as int]));
                assert(raw_scan(toks, i as int, st) == raw_scan(
                    toks,
                    i + 1,
                    RawState {
                        args: args@,
                        values: values.deep_view(),
                        flags: flags.deep_view(),
                    },
                ));
            }
            i += 1;
        }
    }

    RawArguments { args, values, flags }
}

} // verus!
