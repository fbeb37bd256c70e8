//! Builds a `class` attribute string from individual fragments.
use vstd::prelude::*;
use crate::text::{
    chars_of, concat, join_seq, lemma_push_sep_all, non_empty, push_sep, push_sep_all, string_of,
    TextArg,
};

verus! {

/// Accumulates class-name fragments into a single space-separated string.
///
/// Empty fragments are skipped, so a falsy conditional or a blank expression
/// never leaves a stray space. This backs the template compiler's `:class`
/// object (`{ active: cond }`) and array (`[a, b]`) syntax, and the merge of a
/// static `class` with a dynamic `:class`.
pub struct ClassList(String);

impl View for ClassList {
    type V = Seq<char>;

    closed spec fn view(&self) -> Seq<char> {
        self.0@
    }
}

impl ClassList {
    /// An empty builder.
    pub fn new() -> (r: Self)
        ensures
            r@ == Seq::<char>::empty(),
    {
        ClassList(String::new())
    }

    /// Append `class` unless it is empty, separating it from the previous
    /// fragment with a single space.
    pub fn push<S: TextArg>(self, class: S) -> (r: Self)
        ensures
            r@ == push_sep(self@, class.text(), seq![' ']),
    {
        let c = chars_of(class.as_text());
        if c.len() == 0 {
            self
        } else if self.0.as_str().unicode_len() == 0 {
            ClassList(string_of(&c))
        } else {
            let acc = chars_of(self.0.as_str());
            ClassList(string_of(&concat(&concat(&acc, &[' ']), &c)))
        }
    }

    /// Append `class` only when `cond` holds (the object-syntax entry).
    pub fn push_if<S: TextArg>(self, class: S, cond: bool) -> (r: Self)
        ensures
            r@ == if cond { push_sep(self@, class.text(), seq![' ']) } else { self@ },
    {
        if cond {
            self.push(class)
        } else {
            self
        }
    }

    /// The joined `class` string.
    pub fn finish(self) -> (s: String)
        ensures
            s@ == self@,
    {
        self.0
    }
}

/// Pushing fragments one by one yields the non-empty fragments joined by
/// single spaces: no empty fragment ever leaves a stray space.
pub proof fn law_class_list_joins_non_empty(frags: Seq<Seq<char>>)
    ensures
        push_sep_all(Seq::empty(), frags, seq![' ']) == join_seq(non_empty(frags), seq![' ']),
{
    lemma_push_sep_all(frags, seq![' ']);
}

} // verus!
