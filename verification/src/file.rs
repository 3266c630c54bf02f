use vstd::prelude::*;

use crate::strutil::vec_contains_str;

verus! {

/// What the file-sorting pass is told about one run.
pub struct Options {
    /// Extensions to leave alone, if given.
    pub excluded: Option<Vec<String>>,
    /// The only extensions to touch, if given.
    pub included: Option<Vec<String>>,
    /// Whether files are only checked, never moved.
    pub dry_run: bool,
}

/// What became of one file.
pub enum FileResult {
    Moved,
    Skipped,
    Checked,
    Errored(String),
}

/// The extension views of an optional extension list.
pub open spec fn spec_list_views(o: Option<Vec<String>>) -> Option<Seq<Seq<char>>> {
    match o {
        Option::None => Option::None,
        Option::Some(v) => Option::Some(v.deep_view()),
    }
}

/// What the options decide for a file of the given extension: skipped
/// when an inclusion list omits it or an exclusion list names it,
/// checked on a dry run, moved otherwise.
pub open spec fn spec_classify(ext: Seq<char>, options: &Options) -> FileResult {
    if spec_list_views(options.included) matches Option::Some(inc) && !inc.contains(ext) {
        FileResult::Skipped
    } else if spec_list_views(options.excluded) matches Option::Some(exc) && exc.contains(ext) {
        FileResult::Skipped
    } else if options.dry_run {
        FileResult::Checked
    } else {
        FileResult::Moved
    }
}

/// Decides what to do with a file of the given extension; moving it,
/// when that is the decision, is the caller's work.
pub fn classify(extension: &String, options: &Options) -> (r: FileResult)
    ensures
        r == spec_classify(extension@, options),
{
    match &options.included {
        Option::None => {},
        Option::Some(list) => {
            if !vec_contains_str(list, extension.as_str()) {
                return FileResult::Skipped;
            }
        },
    }
    match &options.excluded {
        Option::None => {},
        Option::Some(list) => {
            if vec_contains_str(list, extension.as_str()) {
                return FileResult::Skipped;
            }
        },
    }
    if options.dry_run {
        return FileResult::Checked;
    }
    FileResult::Moved
}

/// The pieces of `s` between commas; splitting keeps empty pieces, so
/// the result always holds one piece more than `s` holds commas.
pub open spec fn split_commas(s: Seq<char>) -> Seq<Seq<char>>
    decreases s.len(),
{
    if s.len() == 0 {
        seq![Seq::<char>::empty()]
    } else if s[0] == ',' {
        seq![Seq::<char>::empty()] + split_commas(s.skip(1))
    } else {
        let rest = split_commas(s.skip(1));
        seq![seq![s[0]] + rest[0]] + rest.skip(1)
    }
}

proof fn lemma_split_commas_nonempty(s: Seq<char>)
    ensures
        split_commas(s).len() >= 1,
    decreases s.len(),
{
    if s.len() > 0 {
        lemma_split_commas_nonempty(s.skip(1));
    }
}

/// Splits a comma-separated string into its pieces.
pub fn split_comma_list(s: &String) -> (r: Vec<String>)
    ensures
        r.deep_view() == split_commas(s@),
{
    let slice = s.as_str();
    let n = slice.unicode_len();
    let mut done: Vec<String> = Vec::new();
    let mut cur = String::new();
    let mut i: usize = 0;
    proof {
        assert(s@.skip(0) =~= s@);
        assert(done.deep_view() =~= Seq::<Seq<char>>::empty());
    }
    while i < n
        invariant
            i <= n,
            n == s@.len(),
            slice@ == s@,
            split_commas(s@) == done.deep_view() + seq![
                cur@ + split_commas(s@.skip(i as int))[0],
            ] + split_commas(s@.skip(i as int)).skip(1),
        decreases n - i,
    {
        let c = slice.get_char(i);
        let ghost dv = done.deep_view();
        let ghost curv = cur@;
        let ghost tail = split_commas(s@.skip(i + 1));
        proof {
            lemma_split_commas_nonempty(s@.skip(i + 1));
            assert(s@.skip(i as int)[0] == s@[i as int]);
            assert(s@.skip(i as int).skip(1) =~= s@.skip(i + 1));
        }
        if c == ',' {
            proof {
                assert(split_commas(s@.skip(i as int)) == seq![Seq::<char>::empty()] + tail);
                assert((seq![Seq::<char>::empty()] + tail).skip(1) =~= tail);
                assert(seq![tail[0]] + tail.skip(1) =~~= tail);
                assert(curv + Seq::<char>::empty() =~= curv);
            }
            done.push(cur);
            cur = String::new();
            proof {
                assert(done.deep_view() =~= dv.push(curv));
                assert(dv + seq![curv] + tail =~~= dv.push(curv) + seq![
                    cur@ + tail[0],
                ] + tail.skip(1));
                assert(split_commas(s@) == done.deep_view() + seq![cur@ + split_commas(
                    s@.skip(i + 1),
                )[0]] + split_commas(s@.skip(i + 1)).skip(1));
            }
        } else {
            let piece = slice.substring_char(i, i + 1);
            proof {
                assert(split_commas(s@.skip(i as int)) == seq![seq![s@[i as int]] + tail[0]]
                    + tail.skip(1));
            }
            cur.append(piece);
            proof {
                assert(piece@ =~= seq![s@[i as int]]);
                assert(cur@ + tail[0] =~= curv + (seq![s@[i as int]] + tail[0]));
                assert(dv + seq![curv + (seq![s@[i as int]] + tail[0])] + tail.skip(1) =~~= dv
                    + seq![cur@ + tail[0]] + tail.skip(1));
                assert(split_commas(s@) == done.deep_view() + seq![cur@ + split_commas(
                    s@.skip(i + 1),
                )[0]] + split_commas(s@.skip(i + 1)).skip(1));
            }
        }
        i += 1;
    }
    let ghost dv = done.deep_view();
    let ghost curv = cur@;
    proof {
        assert(s@.skip(n as int) =~= Seq::<char>::empty());
        assert(curv + split_commas(s@.skip(n as int))[0] =~= curv);
        assert(split_commas(s@.skip(n as int)).skip(1) =~= Seq::<Seq<char>>::empty());
        assert(split_commas(s@) =~~= dv + seq![curv]);
    }
    done.push(cur);
    proof {
        assert(done.deep_view() =~= dv.push(curv));
        assert(dv.push(curv) =~~= dv + seq![curv]);
        assert(done.deep_view() == split_commas(s@));
    }
    done
}

/// Splits an optional comma-separated string into its pieces.
pub fn resolve_cs_list(val: Option<&String>) -> (r: Option<Vec<String>>)
    ensures
        match r {
            Option::Some(v) => val is Some && v.deep_view() == split_commas(val->0@),
            Option::None => val is None,
        },
{
    match val {
        Option::None => Option::None,
        Option::Some(s) => Option::Some(split_comma_list(s)),
    }
}

} // verus!
