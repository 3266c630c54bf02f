use vstd::prelude::*;

use crate::strutil::{seq_ends_with, seq_starts_with, str_ends_with, str_starts_with};

verus! {

/// Whether `s` already carries `start` at its front and `end` at its back.
pub open spec fn spec_wrapped_in(s: Seq<char>, start: Seq<char>, end: Seq<char>) -> bool {
    seq_starts_with(s, start) && seq_ends_with(s, end)
}

/// Surrounding a string with bracketing text, unless it is bracketed already.
pub trait Wrapping {
    /// The characters of the receiver.
    spec fn chars(&self) -> Seq<char>;

    /// Whether the receiver starts with `start` and ends with `end`.
    fn is_wrapped_in(&self, start: &str, end: &str) -> (r: bool)
        ensures
            r == spec_wrapped_in(self.chars(), start@, end@),
    ;

    /// Whether the receiver starts and ends with `pat`.
    fn is_wrapped(&self, pat: &str) -> (r: bool)
        ensures
            r == spec_wrapped_in(self.chars(), pat@, pat@),
    ;

    /// The receiver surrounded by `pat`, unless already so.
    fn wrap(&self, pat: &str) -> (r: String)
        ensures
            r@ == if spec_wrapped_in(self.chars(), pat@, pat@) {
                self.chars()
            } else {
                pat@ + self.chars() + pat@
            },
    ;

    /// The receiver put between `start` and `end`, unless already so.
    fn wrap_into(&self, start: &str, end: &str) -> (r: String)
        ensures
            r@ == if spec_wrapped_in(self.chars(), start@, end@) {
                self.chars()
            } else {
                start@ + self.chars() + end@
            },
    ;
}

impl Wrapping for String {
    open spec fn chars(&self) -> Seq<char> {
        self@
    }

    fn is_wrapped_in(&self, start: &str, end: &str) -> (r: bool)
    {
        str_starts_with(self.as_str(), start) && str_ends_with(self.as_str(), end)
    }

    fn is_wrapped(&self, pat: &str) -> (r: bool)
    {
        self.is_wrapped_in(pat, pat)
    }

    fn wrap(&self, pat: &str) -> (r: String)
    {
        self.wrap_into(pat, pat)
    }

    fn wrap_into(&self, start: &str, end: &str) -> (r: String)
    {
        if self.is_wrapped_in(start, end) {
            self.clone()
        } else {
            let mut r = String::from_str(start);
            r.append(self.as_str());
            r.append(end);
            r
        }
    }
}

} // verus!
