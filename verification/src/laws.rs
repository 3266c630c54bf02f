use vstd::prelude::*;

use crate::app::{distinct_flag_specs, CLIApp};
use crate::flag::{eval_default, spec_has_abbr, CLIFlag};
use crate::parse::{
    apply_flag_defaults, apply_one_flag_default, find_flag, initial_state, lemma_find_flag,
    parse_outcome, scan_tokens, settle_values, ParseState,
};
use crate::strutil::spec_is_flag_token;
use crate::value::CLIValue;

verus! {

/// Law: registration enforces uniqueness. In a well-formed application
/// any two distinct flags have distinct names and disjoint abbreviation
/// sets; `add_flag` cannot be reached with a colliding flag, which
/// `flag_conflict` reports before any parse.
pub proof fn lemma_registration_unique(app: &CLIApp, i: int, j: int)
    requires
        app.wf(),
        0 <= i < app.spec_flags().len(),
        0 <= j < app.spec_flags().len(),
        i != j,
    ensures
        app.spec_flags()[i].name@ != app.spec_flags()[j].name@,
        forall|a: int, b: int|
            0 <= a < app.spec_flags()[i].abbr.deep_view().len() && 0 <= b
                < app.spec_flags()[j].abbr.deep_view().len()
                ==> app.spec_flags()[i].abbr.deep_view()[a]
                != app.spec_flags()[j].abbr.deep_view()[b],
{
    if i < j {
        assert(distinct_flag_specs(app.spec_flags()[i], app.spec_flags()[j]));
    } else {
        assert(distinct_flag_specs(app.spec_flags()[j], app.spec_flags()[i]));
    }
}

/// In a well-formed application, no abbreviation is owned by two flags.
proof fn lemma_wf_find_is_owner(app: &CLIApp, tok: Seq<char>, fidx: int)
    requires
        app.wf(),
        0 <= fidx < app.spec_flags().len(),
        spec_has_abbr(app.spec_flags()[fidx], tok),
    ensures
        find_flag(app.spec_flags(), tok) == fidx,
{
    let flags = app.spec_flags();
    lemma_find_flag(flags, tok);
    let i0 = find_flag(flags, tok);
    if i0 != fidx {
        assert(spec_has_abbr(flags[i0], tok));
        lemma_registration_unique(app, i0, fidx);
        let a = choose|a: int|
            0 <= a < flags[i0].abbr.deep_view().len() && flags[i0].abbr.deep_view()[a] == tok;
        let b = choose|b: int|
            0 <= b < flags[fidx].abbr.deep_view().len() && flags[fidx].abbr.deep_view()[b] == tok;
        assert(flags[i0].abbr.deep_view()[a] != flags[fidx].abbr.deep_view()[b]);
        assert(false);
    }
}

/// Whatever the token pass records stays recorded to its end.
proof fn lemma_scan_monotone(
    flags: Seq<CLIFlag>,
    values: Seq<CLIValue>,
    toks: Seq<Seq<char>>,
    i: int,
    st: ParseState,
    fin: ParseState,
)
    requires
        scan_tokens(flags, values, toks, i, st) == Result::<ParseState, crate::parse::ParseError>::Ok(fin),
    ensures
        forall|n: Seq<char>| st.flags.contains(n) ==> fin.flags.contains(n),
        forall|n: Seq<char>| st.args.contains_key(n) ==> fin.args.contains_key(n),
    decreases toks.len() - i,
{
    if i >= toks.len() {
    } else {
        let tok = toks[i];
        if spec_is_flag_token(tok) {
            let fi = find_flag(flags, tok);
            let f = flags[fi];
            if f.expects_value {
                if i + 1 < toks.len() && !spec_is_flag_token(toks[i + 1]) {
                    let st2 = ParseState { args: st.args.insert(f.name@, toks[i + 1]), ..st };
                    lemma_scan_monotone(flags, values, toks, i + 2, st2, fin);
                } else {
                    let v = eval_default(f.default, st.args)->0;
                    let st2 = ParseState { args: st.args.insert(f.name@, v), ..st };
                    lemma_scan_monotone(flags, values, toks, i + 1, st2, fin);
                }
            } else {
                let st2 = ParseState { flags: st.flags.push(f.name@), ..st };
                lemma_scan_monotone(flags, values, toks, i + 1, st2, fin);
                assert forall|n: Seq<char>| st.flags.contains(n) implies st2.flags.contains(
                    n,
                ) by {
                    let x = choose|x: int| 0 <= x < st.flags.len() && st.flags[x] == n;
                    assert(st2.flags[x] == n);
                }
            }
        } else {
            let st2 = ParseState {
                values: st.values.insert(values[st.next_value].name@, tok),
                next_value: st.next_value + 1,
                ..st
            };
            lemma_scan_monotone(flags, values, toks, i + 1, st2, fin);
        }
    }
}

/// A dash token that matches a declared flag leaves that flag's name
/// recorded, as a stand-alone flag or as a resolved argument.
proof fn lemma_scan_flag_seen(
    flags: Seq<CLIFlag>,
    values: Seq<CLIValue>,
    toks: Seq<Seq<char>>,
    i: int,
    st: ParseState,
    fin: ParseState,
    j: int,
)
    requires
        scan_tokens(flags, values, toks, i, st) == Result::<ParseState, crate::parse::ParseError>::Ok(fin),
        i <= j < toks.len(),
        spec_is_flag_token(toks[j]),
        0 <= find_flag(flags, toks[j]),
    ensures
        fin.flags.contains(flags[find_flag(flags, toks[j])].name@) || fin.args.contains_key(
            flags[find_flag(flags, toks[j])].name@,
        ),
    decreases toks.len() - i,
{
    let tok = toks[i];
    if spec_is_flag_token(tok) {
        let fi = find_flag(flags, tok);
        let f = flags[fi];
        if f.expects_value {
            if i + 1 < toks.len() && !spec_is_flag_token(toks[i + 1]) {
                let st2 = ParseState { args: st.args.insert(f.name@, toks[i + 1]), ..st };
                if i == j {
                    lemma_scan_monotone(flags, values, toks, i + 2, st2, fin);
                    assert(st2.args.contains_key(f.name@));
                } else {
                    assert(j != i + 1);
                    lemma_scan_flag_seen(flags, values, toks, i + 2, st2, fin, j);
                }
            } else {
                let v = eval_default(f.default, st.args)->0;
                let st2 = ParseState { args: st.args.insert(f.name@, v), ..st };
                if i == j {
                    lemma_scan_monotone(flags, values, toks, i + 1, st2, fin);
                    assert(st2.args.contains_key(f.name@));
                } else {
                    lemma_scan_flag_seen(flags, values, toks, i + 1, st2, fin, j);
                }
            }
        } else {
            let st2 = ParseState { flags: st.flags.push(f.name@), ..st };
            if i == j {
                lemma_scan_monotone(flags, values, toks, i + 1, st2, fin);
                assert(st2.flags[st.flags.len() as int] == f.name@);
                assert(st2.flags.contains(f.name@));
            } else {
                lemma_scan_flag_seen(flags, values, toks, i + 1, st2, fin, j);
            }
        }
    } else {
        let st2 = ParseState {
            values: st.values.insert(values[st.next_value].name@, tok),
            next_value: st.next_value + 1,
            ..st
        };
        lemma_scan_flag_seen(flags, values, toks, i + 1, st2, fin, j);
    }
}

/// The token pass records a name only when a token matched a flag of
/// that name.
proof fn lemma_scan_no_new_key(
    flags: Seq<CLIFlag>,
    values: Seq<CLIValue>,
    toks: Seq<Seq<char>>,
    i: int,
    st: ParseState,
    fin: ParseState,
    n: Seq<char>,
)
    requires
        scan_tokens(flags, values, toks, i, st) == Result::<ParseState, crate::parse::ParseError>::Ok(fin),
        !st.flags.contains(n),
        !st.args.contains_key(n),
        forall|k: int, j: int|
            0 <= k < flags.len() && i <= j < toks.len() && spec_has_abbr(
                flags[k],
                toks[j],
            ) ==> flags[k].name@ != n,
    ensures
        !fin.flags.contains(n),
        !fin.args.contains_key(n),
    decreases toks.len() - i,
{
    if i >= toks.len() {
    } else {
        let tok = toks[i];
        if spec_is_flag_token(tok) {
            let fi = find_flag(flags, tok);
            lemma_find_flag(flags, tok);
            let f = flags[fi];
            assert(spec_has_abbr(f, tok));
            assert(f.name@ != n);
            if f.expects_value {
                if i + 1 < toks.len() && !spec_is_flag_token(toks[i + 1]) {
                    let st2 = ParseState { args: st.args.insert(f.name@, toks[i + 1]), ..st };
                    lemma_scan_no_new_key(flags, values, toks, i + 2, st2, fin, n);
                } else {
                    let v = eval_default(f.default, st.args)->0;
                    let st2 = ParseState { args: st.args.insert(f.name@, v), ..st };
                    lemma_scan_no_new_key(flags, values, toks, i + 1, st2, fin, n);
                }
            } else {
                let st2 = ParseState { flags: st.flags.push(f.name@), ..st };
                if st2.flags.contains(n) {
                    let x = choose|x: int| 0 <= x < st2.flags.len() && st2.flags[x] == n;
                    assert(x == st.flags.len() || st.flags[x] == n);
                    assert(false);
                }
                lemma_scan_no_new_key(flags, values, toks, i + 1, st2, fin, n);
            }
        } else {
            let st2 = ParseState {
                values: st.values.insert(values[st.next_value].name@, tok),
                next_value: st.next_value + 1,
                ..st
            };
            lemma_scan_no_new_key(flags, values, toks, i + 1, st2, fin, n);
        }
    }
}

/// The flag post-pass keeps every recorded argument.
proof fn lemma_apply_defaults_monotone(flags: Seq<CLIFlag>, args: Map<Seq<char>, Seq<char>>, n: Seq<char>)
    requires
        args.contains_key(n),
    ensures
        apply_flag_defaults(flags, args).contains_key(n),
    decreases flags.len(),
{
    if flags.len() > 0 {
        lemma_apply_defaults_monotone(flags.skip(1), apply_one_flag_default(flags[0], args), n);
    }
}

/// The flag post-pass adds no entry for a name whose default can never
/// be satisfied.
proof fn lemma_apply_defaults_no_new_key(
    flags: Seq<CLIFlag>,
    args: Map<Seq<char>, Seq<char>>,
    n: Seq<char>,
)
    requires
        !args.contains_key(n),
        forall|k: int|
            0 <= k < flags.len() && flags[k].name@ == n ==> (forall|m: Map<Seq<char>, Seq<char>>|
                eval_default(#[trigger] flags[k].default, m) is None),
    ensures
        !apply_flag_defaults(flags, args).contains_key(n),
    decreases flags.len(),
{
    if flags.len() > 0 {
        let a1 = apply_one_flag_default(flags[0], args);
        if flags[0].name@ == n {
            assert(eval_default(flags[0].default, args) is None);
        }
        assert(!a1.contains_key(n));
        assert forall|k: int|
            0 <= k < flags.skip(1).len() && flags.skip(1)[k].name@ == n implies (forall|
            m: Map<Seq<char>, Seq<char>>,
        |
            eval_default(#[trigger] flags.skip(1)[k].default, m) is None) by {
            assert(flags.skip(1)[k] == flags[k + 1]);
        }
        lemma_apply_defaults_no_new_key(flags.skip(1), a1, n);
    }
}

/// Law, one half of the round trip: when a parse succeeds, every flag
/// one of whose abbreviations stood in the input counts as present in
/// the result; `CLIResult::has_flag` then answers true for its name.
pub proof fn lemma_mentioned_flag_present(
    app: &CLIApp,
    toks: Seq<Seq<char>>,
    fidx: int,
    j: int,
    vm: Map<Seq<char>, Seq<char>>,
    am: Map<Seq<char>, Seq<char>>,
    fl: Seq<Seq<char>>,
)
    requires
        app.wf(),
        0 <= fidx < app.spec_flags().len(),
        1 <= j < toks.len(),
        spec_is_flag_token(toks[j]),
        spec_has_abbr(app.spec_flags()[fidx], toks[j]),
        parse_outcome(app.spec_flags(), app.spec_values(), toks) == Result::<
            (Map<Seq<char>, Seq<char>>, Map<Seq<char>, Seq<char>>, Seq<Seq<char>>),
            crate::parse::ParseError,
        >::Ok((vm, am, fl)),
    ensures
        fl.contains(app.spec_flags()[fidx].name@) || am.contains_key(
            app.spec_flags()[fidx].name@,
        ),
{
    let flags = app.spec_flags();
    let values = app.spec_values();
    let n = flags[fidx].name@;
    lemma_wf_find_is_owner(app, toks[j], fidx);
    let st = scan_tokens(flags, values, toks, 1, initial_state())->Ok_0;
    lemma_scan_flag_seen(flags, values, toks, 1, initial_state(), st, j);
    if st.args.contains_key(n) {
        lemma_apply_defaults_monotone(flags, st.args, n);
    }
}

/// Law, the other half of the round trip: when a parse succeeds, a flag
/// none of whose abbreviations stood in the input, and whose default
/// can never be satisfied, does not count as present in the result;
/// `CLIResult::has_flag` then answers false for its name.
pub proof fn lemma_unmentioned_flag_absent(
    app: &CLIApp,
    toks: Seq<Seq<char>>,
    fidx: int,
    vm: Map<Seq<char>, Seq<char>>,
    am: Map<Seq<char>, Seq<char>>,
    fl: Seq<Seq<char>>,
)
    requires
        app.wf(),
        0 <= fidx < app.spec_flags().len(),
        forall|j: int| 1 <= j < toks.len() ==> !spec_has_abbr(app.spec_flags()[fidx], toks[j]),
        forall|m: Map<Seq<char>, Seq<char>>|
            eval_default(app.spec_flags()[fidx].default, m) is None,
        parse_outcome(app.spec_flags(), app.spec_values(), toks) == Result::<
            (Map<Seq<char>, Seq<char>>, Map<Seq<char>, Seq<char>>, Seq<Seq<char>>),
            crate::parse::ParseError,
        >::Ok((vm, am, fl)),
    ensures
        !fl.contains(app.spec_flags()[fidx].name@),
        !am.contains_key(app.spec_flags()[fidx].name@),
{
    let flags = app.spec_flags();
    let values = app.spec_values();
    let n = flags[fidx].name@;
    let st = scan_tokens(flags, values, toks, 1, initial_state())->Ok_0;
    assert forall|k: int, j: int|
        0 <= k < flags.len() && 1 <= j < toks.len() && spec_has_abbr(
            flags[k],
            toks[j],
        ) implies flags[k].name@ != n by {
        if k != fidx {
            lemma_registration_unique(app, k, fidx);
        }
    }
    lemma_scan_no_new_key(flags, values, toks, 1, initial_state(), st, n);
    assert forall|k: int|
        0 <= k < flags.len() && flags[k].name@ == n implies (forall|m: Map<Seq<char>, Seq<char>>|
        eval_default(#[trigger] flags[k].default, m) is None) by {
        if k != fidx {
            lemma_registration_unique(app, k, fidx);
            assert(false);
        }
    }
    lemma_apply_defaults_no_new_key(flags, st.args, n);
}


/// Law: a value-less flag that appears counts as present, and a
/// value-expecting flag whose default is always satisfiable resolves to
/// that default even when it never appears.
pub proof fn lemma_flag_presence_and_default(
    fa: CLIFlag,
    fb: CLIFlag,
    ta: Seq<char>,
    xs: Seq<char>,
    t0: Seq<char>,
)
    requires
        fa.expects_value == false,
        spec_is_flag_token(ta),
        spec_has_abbr(fa, ta),
        fb.expects_value == true,
        forall|m: Map<Seq<char>, Seq<char>>|
            eval_default(fb.default, m) == Option::Some(xs),
    ensures
        ({
            let r = parse_outcome(seq![fa, fb], Seq::<CLIValue>::empty(), seq![t0, ta]);
            &&& r matches Result::Ok(t)
            &&& r->Ok_0.2.contains(fa.name@)
            &&& r->Ok_0.1.contains_key(fb.name@)
            &&& r->Ok_0.1[fb.name@] == xs
        }),
{
    let flags = seq![fa, fb];
    let vals = Seq::<CLIValue>::empty();
    let toks = seq![t0, ta];
    let init = initial_state();
    assert(spec_has_abbr(flags[0], ta));
    assert(find_flag(flags, ta) == 0);
    let st2 = ParseState { flags: init.flags.push(fa.name@), ..init };
    assert(scan_tokens(flags, vals, toks, 2, st2) == Result::<
        ParseState,
        crate::parse::ParseError,
    >::Ok(st2));
    assert(scan_tokens(flags, vals, toks, 1, init) == Result::<
        ParseState,
        crate::parse::ParseError,
    >::Ok(st2));
    assert(flags[0] == fa);
    assert(apply_one_flag_default(flags[0], st2.args) == st2.args);
    assert(flags.skip(1) =~= seq![fb]);
    assert(seq![fb][0] == fb);
    assert(seq![fb].skip(1) =~= Seq::<CLIFlag>::empty());
    let am = st2.args.insert(fb.name@, xs);
    assert(eval_default(fb.default, st2.args) == Option::Some(xs));
    assert(apply_one_flag_default(fb, st2.args) == am);
    assert(apply_flag_defaults(flags, st2.args) == apply_flag_defaults(seq![fb], st2.args));
    assert(apply_flag_defaults(seq![fb], st2.args) == apply_flag_defaults(
        Seq::<CLIFlag>::empty(),
        am,
    ));
    assert(apply_flag_defaults(flags, st2.args) == am);
    assert(settle_values(vals, st2.values) == Result::<
        Map<Seq<char>, Seq<char>>,
        crate::parse::ParseError,
    >::Ok(st2.values));
    assert(st2.flags[0] == fa.name@);
    assert(st2.flags.contains(fa.name@));
}

/// Law: positional tokens bind to the declared values first to first,
/// wherever value-less flags are interleaved; the two arrangements
/// parse to the very same outcome.
pub proof fn lemma_positional_order_independence(
    fa: CLIFlag,
    fb: CLIFlag,
    v1: CLIValue,
    v2: CLIValue,
    ta: Seq<char>,
    tb: Seq<char>,
    t0: Seq<char>,
    t1: Seq<char>,
    t2: Seq<char>,
)
    requires
        fa.expects_value == false,
        fb.expects_value == false,
        spec_is_flag_token(ta),
        spec_is_flag_token(tb),
        spec_has_abbr(fa, ta),
        spec_has_abbr(fb, tb),
        !spec_has_abbr(fa, tb),
        !spec_is_flag_token(t1),
        !spec_is_flag_token(t2),
        v1.name@ != v2.name@,
        v1.validator is None,
        v2.validator is None,
    ensures
        parse_outcome(seq![fa, fb], seq![v1, v2], seq![t0, ta, tb, t1, t2]) == parse_outcome(
            seq![fa, fb],
            seq![v1, v2],
            seq![t0, t1, ta, t2, tb],
        ),
        ({
            let r = parse_outcome(seq![fa, fb], seq![v1, v2], seq![t0, ta, tb, t1, t2]);
            &&& r matches Result::Ok(t)
            &&& r->Ok_0.0 == Map::<Seq<char>, Seq<char>>::empty().insert(v1.name@, t1).insert(
                v2.name@,
                t2,
            )
        }),
{
    let flags = seq![fa, fb];
    let vals = seq![v1, v2];
    let init = initial_state();
    assert(flags[0] == fa);
    assert(flags[1] == fb);
    assert(flags.skip(1) =~= seq![fb]);
    assert(seq![fb][0] == fb);
    assert(spec_has_abbr(flags[0], ta));
    assert(find_flag(flags, ta) == 0);
    assert(spec_has_abbr(seq![fb][0], tb));
    assert(find_flag(seq![fb], tb) == 0);
    assert(find_flag(flags, tb) == 1);
    let m = Map::<Seq<char>, Seq<char>>::empty().insert(v1.name@, t1).insert(v2.name@, t2);

    let toks1 = seq![t0, ta, tb, t1, t2];
    let s1 = ParseState { flags: init.flags.push(fa.name@), ..init };
    let s2 = ParseState { flags: s1.flags.push(fb.name@), ..s1 };
    let s3 = ParseState {
        values: s2.values.insert(v1.name@, t1),
        next_value: 1,
        ..s2
    };
    let s4 = ParseState {
        values: s3.values.insert(v2.name@, t2),
        next_value: 2,
        ..s3
    };
    assert(scan_tokens(flags, vals, toks1, 5, s4) == Result::<
        ParseState,
        crate::parse::ParseError,
    >::Ok(s4));
    assert(scan_tokens(flags, vals, toks1, 4, s3) == scan_tokens(flags, vals, toks1, 5, s4));
    assert(scan_tokens(flags, vals, toks1, 3, s2) == scan_tokens(flags, vals, toks1, 4, s3));
    assert(scan_tokens(flags, vals, toks1, 2, s1) == scan_tokens(flags, vals, toks1, 3, s2));
    assert(scan_tokens(flags, vals, toks1, 1, init) == scan_tokens(flags, vals, toks1, 2, s1));
    assert(scan_tokens(flags, vals, toks1, 1, init) == Result::<
        ParseState,
        crate::parse::ParseError,
    >::Ok(s4));

    let toks2 = seq![t0, t1, ta, t2, tb];
    let r1 = ParseState {
        values: init.values.insert(v1.name@, t1),
        next_value: 1,
        ..init
    };
    let r2 = ParseState { flags: r1.flags.push(fa.name@), ..r1 };
    let r3 = ParseState {
        values: r2.values.insert(v2.name@, t2),
        next_value: 2,
        ..r2
    };
    let r4 = ParseState { flags: r3.flags.push(fb.name@), ..r3 };
    assert(scan_tokens(flags, vals, toks2, 5, r4) == Result::<
        ParseState,
        crate::parse::ParseError,
    >::Ok(r4));
    assert(scan_tokens(flags, vals, toks2, 4, r3) == scan_tokens(flags, vals, toks2, 5, r4));
    assert(scan_tokens(flags, vals, toks2, 3, r2) == scan_tokens(flags, vals, toks2, 4, r3));
    assert(scan_tokens(flags, vals, toks2, 2, r1) == scan_tokens(flags, vals, toks2, 3, r2));
    assert(scan_tokens(flags, vals, toks2, 1, init) == scan_tokens(flags, vals, toks2, 2, r1));
    assert(scan_tokens(flags, vals, toks2, 1, init) == Result::<
        ParseState,
        crate::parse::ParseError,
    >::Ok(r4));

    assert(s4.values == m);
    assert(r4.values == m);
    assert(s4.flags =~= r4.flags);
    assert(s4 == r4);

    assert(apply_one_flag_default(fa, s4.args) == s4.args);
    assert(apply_one_flag_default(fb, s4.args) == s4.args);
    assert(seq![fb].skip(1) =~= Seq::<CLIFlag>::empty());
    assert(apply_flag_defaults(flags, s4.args) == apply_flag_defaults(seq![fb], s4.args));
    assert(apply_flag_defaults(seq![fb], s4.args) == apply_flag_defaults(
        Seq::<CLIFlag>::empty(),
        s4.args,
    ));
    assert(apply_flag_defaults(flags, s4.args) == s4.args);

    assert(m.contains_key(v1.name@));
    assert(m.contains_key(v2.name@));
    assert(vals[0] == v1);
    assert(vals.skip(1) =~= seq![v2]);
    assert(seq![v2][0] == v2);
    assert(seq![v2].skip(1) =~= Seq::<CLIValue>::empty());
    assert(settle_values(vals, m) == settle_values(seq![v2], m));
    assert(settle_values(seq![v2], m) == settle_values(Seq::<CLIValue>::empty(), m));
    assert(settle_values(vals, m) == Result::<
        Map<Seq<char>, Seq<char>>,
        crate::parse::ParseError,
    >::Ok(m));
}

/// Law: with two declared values, a third positional token is refused,
/// and the refusal names the limit of two and that third token.
pub proof fn lemma_too_many_values(
    flags: Seq<CLIFlag>,
    v1: CLIValue,
    v2: CLIValue,
    t0: Seq<char>,
    t1: Seq<char>,
    t2: Seq<char>,
    t3: Seq<char>,
)
    requires
        !spec_is_flag_token(t1),
        !spec_is_flag_token(t2),
        !spec_is_flag_token(t3),
    ensures
        parse_outcome(flags, seq![v1, v2], seq![t0, t1, t2, t3]) == Result::<
            (Map<Seq<char>, Seq<char>>, Map<Seq<char>, Seq<char>>, Seq<Seq<char>>),
            crate::parse::ParseError,
        >::Err(crate::parse::ParseError::TooManyValues(2, t3)),
{
    let vals = seq![v1, v2];
    let toks = seq![t0, t1, t2, t3];
    let init = initial_state();
    let s1 = ParseState {
        values: init.values.insert(v1.name@, t1),
        next_value: 1,
        ..init
    };
    let s2 = ParseState {
        values: s1.values.insert(v2.name@, t2),
        next_value: 2,
        ..s1
    };
    assert(scan_tokens(flags, vals, toks, 3, s2) == Result::<
        ParseState,
        crate::parse::ParseError,
    >::Err(crate::parse::ParseError::TooManyValues(2, t3)));
    assert(scan_tokens(flags, vals, toks, 2, s1) == scan_tokens(flags, vals, toks, 3, s2));
    assert(scan_tokens(flags, vals, toks, 1, init) == scan_tokens(flags, vals, toks, 2, s1));
    assert(scan_tokens(flags, vals, toks, 1, init) == Result::<
        ParseState,
        crate::parse::ParseError,
    >::Err(crate::parse::ParseError::TooManyValues(2, t3)));
}

/// Law: a later value's default may read an earlier value's resolved
/// string; binding only the first of two values resolves the second to
/// the first's string with the rule's suffix appended.
pub proof fn lemma_default_chain(
    flags: Seq<CLIFlag>,
    src: CLIValue,
    tgt: CLIValue,
    k: String,
    suf: String,
    t0: Seq<char>,
    t1: Seq<char>,
)
    requires
        !spec_is_flag_token(t1),
        src.validator is None,
        src.name@ != tgt.name@,
        tgt.default == Option::Some(crate::flag::DefaultRule::Appended(k, suf)),
        k@ == src.name@,
    ensures
        ({
            let r = parse_outcome(flags, seq![src, tgt], seq![t0, t1]);
            &&& r matches Result::Ok(t)
            &&& r->Ok_0.0.contains_key(src.name@)
            &&& r->Ok_0.0[src.name@] == t1
            &&& r->Ok_0.0.contains_key(tgt.name@)
            &&& r->Ok_0.0[tgt.name@] == t1 + suf@
        }),
{
    let vals = seq![src, tgt];
    let toks = seq![t0, t1];
    let init = initial_state();
    let s1 = ParseState {
        values: init.values.insert(src.name@, t1),
        next_value: 1,
        ..init
    };
    assert(scan_tokens(flags, vals, toks, 2, s1) == Result::<
        ParseState,
        crate::parse::ParseError,
    >::Ok(s1));
    assert(scan_tokens(flags, vals, toks, 1, init) == Result::<
        ParseState,
        crate::parse::ParseError,
    >::Ok(s1));
    lemma_apply_defaults_preserve(flags, s1.args);
    let m1 = s1.values;
    let m2 = m1.insert(tgt.name@, t1 + suf@);
    assert(m1.contains_key(src.name@));
    assert(!m1.contains_key(tgt.name@));
    assert(eval_default(tgt.default, m1) == Option::Some(m1[k@] + suf@));
    assert(m1[k@] == t1);
    assert(vals.skip(1) =~= seq![tgt]);
    assert(seq![tgt].skip(1) =~= Seq::<CLIValue>::empty());
    assert(vals[0] == src);
    assert(seq![tgt][0] == tgt);
    assert(settle_values(vals, m1) == settle_values(seq![tgt], m1));
    assert(settle_values(seq![tgt], m1) == settle_values(Seq::<CLIValue>::empty(), m2));
    assert(settle_values(Seq::<CLIValue>::empty(), m2) == Result::<
        Map<Seq<char>, Seq<char>>,
        crate::parse::ParseError,
    >::Ok(m2));
}

/// The flag post-pass only ever extends the argument map.
proof fn lemma_apply_defaults_preserve(flags: Seq<CLIFlag>, args: Map<Seq<char>, Seq<char>>)
    ensures
        forall|n: Seq<char>|
            #[trigger] apply_flag_defaults(flags, args).contains_key(n) ==> args.contains_key(n)
                || exists|kk: int| 0 <= kk < flags.len() && flags[kk].name@ == n,
    decreases flags.len(),
{
    if flags.len() > 0 {
        let a1 = apply_one_flag_default(flags[0], args);
        lemma_apply_defaults_preserve(flags.skip(1), a1);
        assert forall|n: Seq<char>|
            #[trigger] apply_flag_defaults(flags, args).contains_key(n) implies args.contains_key(
            n,
        ) || exists|kk: int| 0 <= kk < flags.len() && flags[kk].name@ == n by {
            assert(apply_flag_defaults(flags, args) == apply_flag_defaults(flags.skip(1), a1));
            assert(apply_flag_defaults(flags.skip(1), a1).contains_key(n));
            if !args.contains_key(n) {
                if a1.contains_key(n) {
                    assert(flags[0].name@ == n);
                } else {
                    assert(exists|kk: int|
                        0 <= kk < flags.skip(1).len() && flags.skip(1)[kk].name@ == n);
                    let kk = choose|kk: int|
                        0 <= kk < flags.skip(1).len() && flags.skip(1)[kk].name@ == n;
                    assert(flags.skip(1)[kk] == flags[kk + 1]);
                    assert(flags[kk + 1].name@ == n);
                }
            }
        }
    }
}

/// Law: a dash token is never consumed as a value. A value-expecting
/// flag followed by another flag token falls back to its default, or
/// refuses the parse when it has none, and the following flag still
/// counts as present.
pub proof fn lemma_dash_value_guard(
    fl: CLIFlag,
    fh: CLIFlag,
    tl: Seq<char>,
    th: Seq<char>,
    t0: Seq<char>,
)
    requires
        spec_is_flag_token(tl),
        spec_is_flag_token(th),
        fl.expects_value == true,
        fh.expects_value == false,
        spec_has_abbr(fl, tl),
        spec_has_abbr(fh, th),
        !spec_has_abbr(fl, th),
    ensures
        ({
            let d = eval_default(fl.default, Map::<Seq<char>, Seq<char>>::empty());
            let r = parse_outcome(seq![fl, fh], Seq::<CLIValue>::empty(), seq![t0, tl, th]);
            &&& (d matches Option::Some(dv) && crate::flag::check_passes(fl.validator, dv)) ==> {
                &&& r matches Result::Ok(t)
                &&& r->Ok_0.1.contains_key(fl.name@)
                &&& r->Ok_0.1[fl.name@] == d->0
                &&& r->Ok_0.2.contains(fh.name@)
            }
            &&& d is None ==> r == Result::<
                (Map<Seq<char>, Seq<char>>, Map<Seq<char>, Seq<char>>, Seq<Seq<char>>),
                crate::parse::ParseError,
            >::Err(crate::parse::ParseError::MissingFlagValue(tl))
        }),
{
    let flags = seq![fl, fh];
    let vals = Seq::<CLIValue>::empty();
    let toks = seq![t0, tl, th];
    let init = initial_state();
    assert(flags[0] == fl);
    assert(flags[1] == fh);
    assert(flags.skip(1) =~= seq![fh]);
    assert(seq![fh][0] == fh);
    assert(seq![fh].skip(1) =~= Seq::<CLIFlag>::empty());
    assert(spec_has_abbr(flags[0], tl));
    assert(find_flag(flags, tl) == 0);
    assert(spec_has_abbr(seq![fh][0], th));
    assert(find_flag(seq![fh], th) == 0);
    assert(find_flag(flags, th) == 1);
    assert(init.args == Map::<Seq<char>, Seq<char>>::empty());
    let d = eval_default(fl.default, init.args);
    if d is Some && crate::flag::check_passes(fl.validator, d->0) {
        let s1 = ParseState { args: init.args.insert(fl.name@, d->0), ..init };
        let s2 = ParseState { flags: s1.flags.push(fh.name@), ..s1 };
        assert(scan_tokens(flags, vals, toks, 3, s2) == Result::<
            ParseState,
            crate::parse::ParseError,
        >::Ok(s2));
        assert(scan_tokens(flags, vals, toks, 2, s1) == Result::<
            ParseState,
            crate::parse::ParseError,
        >::Ok(s2));
        assert(scan_tokens(flags, vals, toks, 1, init) == Result::<
            ParseState,
            crate::parse::ParseError,
        >::Ok(s2));
        assert(apply_one_flag_default(fl, s2.args) == s2.args);
        assert(apply_one_flag_default(fh, s2.args) == s2.args);
        assert(apply_flag_defaults(flags, s2.args) == apply_flag_defaults(seq![fh], s2.args));
        assert(apply_flag_defaults(seq![fh], s2.args) == apply_flag_defaults(
            Seq::<CLIFlag>::empty(),
            s2.args,
        ));
        assert(apply_flag_defaults(flags, s2.args) == s2.args);
        assert(settle_values(vals, s2.values) == Result::<
            Map<Seq<char>, Seq<char>>,
            crate::parse::ParseError,
        >::Ok(s2.values));
        assert(s2.flags[0] == fh.name@);
        assert(s2.flags.contains(fh.name@));
    }
    if d is None {
        assert(scan_tokens(flags, vals, toks, 1, init) == Result::<
            ParseState,
            crate::parse::ParseError,
        >::Err(crate::parse::ParseError::MissingFlagValue(tl)));
    }
}

} // verus!

