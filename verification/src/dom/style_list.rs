//! Builds a `style` attribute string from individual CSS declarations.
use vstd::prelude::*;
use crate::text::{
    chars_of, concat, join_seq, lemma_push_sep_all, non_empty, push_sep, push_sep_all, slice_chars,
    string_of, trim, trim_end, trim_end_seq, trim_seq, TextArg,
};

verus! {

/// `s` without one trailing `;`, if it has one.
pub open spec fn strip_semicolon(s: Seq<char>) -> Seq<char> {
    if s.len() > 0 && s.last() == ';' {
        s.drop_last()
    } else {
        s
    }
}

/// A declaration fragment as it is appended: trimmed, with one trailing `;`
/// removed and the whitespace before it trimmed too.
pub open spec fn normalize_decl(decl: Seq<char>) -> Seq<char> {
    trim_end_seq(strip_semicolon(trim_seq(decl)))
}

/// The separator between joined declarations.
pub open spec fn decl_sep() -> Seq<char> {
    seq![';', ' ']
}

/// The style string after appending the declaration fragment `decl` to `acc`.
pub open spec fn style_push(acc: Seq<char>, decl: Seq<char>) -> Seq<char> {
    push_sep(acc, normalize_decl(decl), decl_sep())
}

/// Accumulates CSS declarations into a single `;`-separated `style` string.
///
/// Empty fragments and empty-valued properties are skipped, so a blank
/// expression never leaves a stray separator. This backs the template
/// compiler's `:style` object (`{ color: c }`) and array (`[a, b]`) syntax, and
/// the merge of a static `style` with a dynamic `:style`.
pub struct StyleList(String);

impl View for StyleList {
    type V = Seq<char>;

    closed spec fn view(&self) -> Seq<char> {
        self.0@
    }
}

impl StyleList {
    /// An empty builder.
    pub fn new() -> (r: Self)
        ensures
            r@ == Seq::<char>::empty(),
    {
        StyleList(String::new())
    }

    /// Append the normalized declaration `decl` (characters).
    fn push_chars(self, decl: &[char]) -> (r: Self)
        ensures
            r@ == style_push(self@, decl@),
    {
        let t = trim(decl);
        let stripped = if t.len() > 0 && t[t.len() - 1] == ';' {
            slice_chars(&t, 0, t.len() - 1)
        } else {
            t
        };
        assert(stripped@ == strip_semicolon(trim_seq(decl@)));
        let d = trim_end(&stripped);
        if d.len() == 0 {
            self
        } else if self.0.as_str().unicode_len() == 0 {
            StyleList(string_of(&d))
        } else {
            let acc = chars_of(self.0.as_str());
            let sep = [';', ' '];
            assert(sep@ =~= decl_sep());
            StyleList(string_of(&concat(&concat(&acc, &sep), &d)))
        }
    }

    /// Append a declaration fragment (e.g. `"color: red"`, possibly several
    /// `;`-separated declarations), skipping it when empty. A trailing `;` is
    /// trimmed so joined fragments keep a single `; ` separator.
    pub fn push<S: TextArg>(self, decl: S) -> (r: Self)
        ensures
            r@ == style_push(self@, decl.text()),
    {
        let d = chars_of(decl.as_text());
        self.push_chars(&d)
    }

    /// Append a single `prop: value` declaration (the object-syntax entry),
    /// skipping it when `value` is empty.
    pub fn push_prop<S: TextArg>(self, prop: &str, value: S) -> (r: Self)
        ensures
            r@ == if trim_seq(value.text()).len() == 0 {
                self@
            } else {
                style_push(self@, prop@ + seq![':', ' '] + trim_seq(value.text()))
            },
    {
        let v = trim(&chars_of(value.as_text()));
        if v.len() == 0 {
            self
        } else {
            let decl = concat(&concat(&chars_of(prop), &[':', ' ']), &v);
            assert(decl@ =~= prop@ + seq![':', ' '] + trim_seq(value.text()));
            self.push_chars(&decl)
        }
    }

    /// The joined `style` string.
    pub fn finish(self) -> (s: String)
        ensures
            s@ == self@,
    {
        self.0
    }
}

/// Pushing declaration fragments one by one yields the non-empty normalized
/// fragments joined by `"; "`: no blank fragment leaves a stray separator.
pub proof fn law_style_list_joins_non_empty(decls: Seq<Seq<char>>)
    ensures
        push_sep_all(Seq::empty(), decls.map_values(|d: Seq<char>| normalize_decl(d)), decl_sep())
            == join_seq(non_empty(decls.map_values(|d: Seq<char>| normalize_decl(d))), decl_sep()),
{
    lemma_push_sep_all(decls.map_values(|d: Seq<char>| normalize_decl(d)), decl_sep());
}

} // verus!
