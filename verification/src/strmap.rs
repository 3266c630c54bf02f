use vstd::prelude::*;

use crate::strutil::str_eq;

verus! {

/// An insertion-ordered table of string keys and string values. A later
/// `insert` of a key already present shadows the earlier entry, so the
/// view is the map in which the last binding of each key wins.
#[derive(Debug, PartialEq)]
pub struct StrMap {
    entries: Vec<(String, String)>,
}

/// The map described by a sequence of bindings, later bindings winning.
pub open spec fn bindings_as_map(entries: Seq<(String, String)>) -> Map<Seq<char>, Seq<char>>
    decreases entries.len(),
{
    if entries.len() == 0 {
        Map::empty()
    } else {
        bindings_as_map(entries.drop_last()).insert(entries.last().0@, entries.last().1@)
    }
}

proof fn lemma_bindings_last_match(entries: Seq<(String, String)>, k: Seq<char>, i: int)
    requires
        0 <= i < entries.len(),
        entries[i].0@ == k,
        forall|j: int| i < j < entries.len() ==> entries[j].0@ != k,
    ensures
        bindings_as_map(entries).contains_key(k),
        bindings_as_map(entries)[k] == entries[i].1@,
    decreases entries.len(),
{
    if i == entries.len() - 1 {
    } else {
        lemma_bindings_last_match(entries.drop_last(), k, i);
    }
}

proof fn lemma_bindings_no_match(entries: Seq<(String, String)>, k: Seq<char>)
    requires
        forall|j: int| 0 <= j < entries.len() ==> entries[j].0@ != k,
    ensures
        !bindings_as_map(entries).contains_key(k),
    decreases entries.len(),
{
    if entries.len() > 0 {
        lemma_bindings_no_match(entries.drop_last(), k);
    }
}

impl View for StrMap {
    type V = Map<Seq<char>, Seq<char>>;

    closed spec fn view(&self) -> Map<Seq<char>, Seq<char>> {
        bindings_as_map(self.entries@)
    }
}

impl StrMap {
    /// An empty table.
    pub fn new() -> (r: StrMap)
        ensures
            r@ == Map::<Seq<char>, Seq<char>>::empty(),
    {
        StrMap { entries: Vec::new() }
    }

    /// Binds `key` to `value`, shadowing any earlier binding of `key`.
    pub fn insert(&mut self, key: String, value: String)
        ensures
            final(self)@ == old(self)@.insert(key@, value@),
    {
        let ghost before = self.entries@;
        self.entries.push((key, value));
        proof {
            assert(self.entries@.drop_last() =~= before);
        }
    }

    /// Whether `key` is bound.
    pub fn contains_key(&self, key: &str) -> (r: bool)
        ensures
            r == self@.contains_key(key@),
    {
        let mut i: usize = self.entries.len();
        while i > 0
            invariant
                i <= self.entries.len(),
                forall|j: int| i <= j < self.entries@.len() ==> self.entries@[j].0@ != key@,
            decreases i,
        {
            i -= 1;
            if str_eq(self.entries[i].0.as_str(), key) {
                proof {
                    lemma_bindings_last_match(self.entries@, key@, i as int);
                }
                return true;
            }
        }
        proof {
            lemma_bindings_no_match(self.entries@, key@);
        }
        false
    }

    /// The value bound to `key`, if any; the last binding wins.
    pub fn get(&self, key: &str) -> (r: Option<&String>)
        ensures
            match r {
                Option::Some(v) => self@.contains_key(key@) && v@ == self@[key@],
                Option::None => !self@.contains_key(key@),
            },
    {
        let mut i: usize = self.entries.len();
        while i > 0
            invariant
                i <= self.entries.len(),
                forall|j: int| i <= j < self.entries@.len() ==> self.entries@[j].0@ != key@,
            decreases i,
        {
            i -= 1;
            if str_eq(self.entries[i].0.as_str(), key) {
                proof {
                    lemma_bindings_last_match(self.entries@, key@, i as int);
                }
                return Option::Some(&self.entries[i].1);
            }
        }
        proof {
            lemma_bindings_no_match(self.entries@, key@);
        }
        Option::None
    }
}

} // verus!
