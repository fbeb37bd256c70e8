//! Scanning bound expressions: top-level splitting, object-literal entries,
//! and the small name transformations the directives need.
use vstd::prelude::*;
use crate::text::{
    chars_of, concat, join_seq, find, find_from, is_ascii_upper, lemma_find_from, lemma_split_nonempty,
    slice_chars, split_chars, split_seq, string_of, trim, trim_seq, views,
};

verus! {

/// Where a scan over an expression stands: bracket depth, the quote of the
/// string literal it is inside (if any), and whether the previous character
/// was an escaping backslash inside that literal.
pub struct ScanState {
    pub depth: int,
    pub quote: Option<char>,
    pub escaped: bool,
}

/// An opening bracket, parenthesis or brace.
pub open spec fn is_open(c: char) -> bool {
    c == '(' || c == '[' || c == '{'
}

/// A closing bracket, parenthesis or brace.
pub open spec fn is_close(c: char) -> bool {
    c == ')' || c == ']' || c == '}'
}

/// A string-literal quote.
pub open spec fn is_quote(c: char) -> bool {
    c == '\'' || c == '"'
}

/// The scan state after reading `c` in state `st`.
pub open spec fn scan_step(st: ScanState, c: char) -> ScanState {
    match st.quote {
        Some(q) => if st.escaped {
            ScanState { escaped: false, ..st }
        } else if c == '\\' {
            ScanState { escaped: true, ..st }
        } else if c == q {
            ScanState { quote: None, ..st }
        } else {
            st
        },
        None => if is_quote(c) {
            ScanState { quote: Some(c), ..st }
        } else if is_open(c) {
            ScanState { depth: st.depth + 1, ..st }
        } else if is_close(c) {
            ScanState { depth: st.depth - 1, ..st }
        } else {
            st
        },
    }
}

/// The scan state before index `i` of `s`.
pub open spec fn scan_before(s: Seq<char>, i: int) -> ScanState
    decreases i,
{
    if i <= 0 {
        ScanState { depth: 0, quote: None, escaped: false }
    } else {
        scan_step(scan_before(s, i - 1), s[i - 1])
    }
}

/// Index `i` of `s` is a top-level `delim`: outside brackets and string
/// literals (a quote or bracket character is never a delimiter).
pub open spec fn splits_at(s: Seq<char>, i: int, delim: char) -> bool {
    let st = scan_before(s, i);
    st.quote is None && !is_quote(s[i]) && !is_open(s[i]) && !is_close(s[i]) && s[i] == delim && st.depth == 0
}

/// The pieces of `s` from `start` on, cut at every top-level `delim` at or
/// after `i` (the piece being read began at `start`).
pub open spec fn split_top_from(s: Seq<char>, delim: char, start: int, i: int) -> Seq<Seq<char>>
    decreases s.len() - i,
{
    if i >= s.len() {
        seq![s.subrange(start, s.len() as int)]
    } else if splits_at(s, i, delim) {
        seq![s.subrange(start, i)] + split_top_from(s, delim, i + 1, i + 1)
    } else {
        split_top_from(s, delim, start, i + 1)
    }
}

/// Split `s` on top-level `delim`, ignoring delimiters nested inside brackets,
/// parentheses, braces, or string literals.
pub open spec fn spec_split_top_level(s: Seq<char>, delim: char) -> Seq<Seq<char>> {
    split_top_from(s, delim, 0, 0)
}

/// The views of a vector of strings.
pub open spec fn strings_view(v: Seq<String>) -> Seq<Seq<char>> {
    v.map_values(|x: String| x@)
}

/// Split `s` on top-level `delim`, ignoring delimiters nested inside brackets,
/// parentheses, braces, or string literals.
pub fn split_top_level(s: &str, delim: char) -> (r: Vec<String>)
    ensures
        strings_view(r@) == spec_split_top_level(s@, delim),
{
    let v = chars_of(s);
    let n = v.len();
    let mut parts: Vec<String> = Vec::new();
    let mut start: usize = 0;
    let mut depth: i128 = 0;
    let mut quote: Option<char> = None;
    let mut escaped = false;
    let mut i: usize = 0;
    assert(strings_view(parts@) =~= Seq::<Seq<char>>::empty());
    while i < n
        invariant
            n == v@.len(),
            v@ == s@,
            start <= i <= n,
            -(i as int) <= depth <= i,
            scan_before(v@, i as int) == (ScanState { depth: depth as int, quote, escaped }),
            spec_split_top_level(v@, delim) == strings_view(parts@) + split_top_from(v@, delim, start as int, i as int),
        decreases n - i,
    {
        let c = v[i];
        match quote {
            Some(q) => {
                if escaped {
                    escaped = false;
                } else if c == '\\' {
                    escaped = true;
                } else if c == q {
                    quote = None;
                }
            },
            None => {
                if c == '\'' || c == '"' {
                    quote = Some(c);
                } else if c == '(' || c == '[' || c == '{' {
                    depth = depth + 1;
                } else if c == ')' || c == ']' || c == '}' {
                    depth = depth - 1;
                } else if c == delim && depth == 0 {
                    let piece = string_of(&slice_chars(&v, start, i));
                    let ghost before = parts@;
                    parts.push(piece);
                    assert(strings_view(parts@) =~= strings_view(before).push(v@.subrange(start as int, i as int)));
                    start = i + 1;
                }
            },
        }
        i += 1;
    }
    let piece = string_of(&slice_chars(&v, start, n));
    let ghost before = parts@;
    parts.push(piece);
    assert(strings_view(parts@) =~= strings_view(before).push(v@.subrange(start as int, n as int)));
    parts
}

/// Joining the pieces from `start` on with the delimiter gives back the rest of
/// the input from `start`.
proof fn lemma_split_top_from_join(s: Seq<char>, delim: char, start: int, i: int)
    requires
        0 <= start <= i <= s.len(),
    ensures
        split_top_from(s, delim, start, i).len() >= 1,
        join_seq(split_top_from(s, delim, start, i), seq![delim]) == s.subrange(start, s.len() as int),
    decreases s.len() - i,
{
    if i >= s.len() {
    } else if splits_at(s, i, delim) {
        lemma_split_top_from_join(s, delim, i + 1, i + 1);
        let rest = split_top_from(s, delim, i + 1, i + 1);
        let all = seq![s.subrange(start, i)] + rest;
        assert(all.drop_first() =~= rest);
        assert(all[0] == s.subrange(start, i));
        assert(s.subrange(start, s.len() as int) =~= s.subrange(start, i) + seq![delim] + s.subrange(i + 1, s.len() as int));
    } else {
        lemma_split_top_from_join(s, delim, start, i + 1);
    }
}

/// Splitting at top-level delimiters loses nothing but the delimiters it cut
/// at: joining the pieces back with the delimiter gives the input.
pub proof fn law_split_top_level_join(s: Seq<char>, delim: char)
    ensures
        spec_split_top_level(s, delim).len() >= 1,
        join_seq(spec_split_top_level(s, delim), seq![delim]) == s,
{
    lemma_split_top_from_join(s, delim, 0, 0);
    assert(s.subrange(0, s.len() as int) =~= s);
}

} // verus!

verus! {

/// The index of the first top-level `:` at or after `i` (scan state `st`),
/// skipping `::` path separators.
pub open spec fn colon_from(s: Seq<char>, i: int, st: ScanState) -> Option<int>
    decreases s.len() - i,
{
    if i < 0 || i >= s.len() {
        None
    } else if st.quote is None && s[i] == ':' && st.depth == 0 {
        if i + 1 < s.len() && s[i + 1] == ':' {
            colon_from(s, i + 2, st)
        } else {
            Some(i)
        }
    } else {
        colon_from(s, i + 1, scan_step(st, s[i]))
    }
}

/// A colon found at or after `i` lies within the string, at or after `i`.
pub proof fn lemma_colon_from_range(s: Seq<char>, i: int, st: ScanState)
    ensures
        colon_from(s, i, st) matches Some(c) ==> i <= c < s.len() && s[c] == ':',
    decreases s.len() - i,
{
    if i < 0 || i >= s.len() {
    } else if st.quote is None && s[i] == ':' && st.depth == 0 {
        if i + 1 < s.len() && s[i + 1] == ':' {
            lemma_colon_from_range(s, i + 2, st);
        }
    } else {
        lemma_colon_from_range(s, i + 1, scan_step(st, s[i]));
    }
}

/// The index of the top-level `:` separating an object entry's name from its
/// condition. A `::` path separator is skipped so a path-bearing condition does
/// not capture the wrong colon.
pub open spec fn spec_find_object_colon(s: Seq<char>) -> Option<int> {
    colon_from(s, 0, ScanState { depth: 0, quote: None, escaped: false })
}

/// The index of the top-level `:` separating an object entry's name from its
/// condition (a `::` path separator is skipped).
pub fn find_object_colon(s: &[char]) -> (r: Option<usize>)
    ensures
        match r {
            Some(i) => spec_find_object_colon(s@) == Some(i as int),
            None => spec_find_object_colon(s@) is None,
        },
{
    let n = s.len();
    let mut depth: i128 = 0;
    let mut quote: Option<char> = None;
    let mut escaped = false;
    let mut i: usize = 0;
    while i < n
        invariant
            n == s@.len(),
            i <= n + 1,
            -(i as int) <= depth <= i,
            spec_find_object_colon(s@) == colon_from(s@, i as int, ScanState { depth: depth as int, quote, escaped }),
        decreases n + 1 - i,
    {
        let c = s[i];
        match quote {
            Some(q) => {
                if escaped {
                    escaped = false;
                } else if c == '\\' {
                    escaped = true;
                } else if c == q {
                    quote = None;
                }
                i += 1;
            },
            None => {
                if c == '\'' || c == '"' {
                    quote = Some(c);
                    i += 1;
                } else if c == '(' || c == '[' || c == '{' {
                    depth = depth + 1;
                    i += 1;
                } else if c == ')' || c == ']' || c == '}' {
                    depth = depth - 1;
                    i += 1;
                } else if c == ':' && depth == 0 {
                    if i + 1 < n && s[i + 1] == ':' {
                        i += 2;
                    } else {
                        return Some(i);
                    }
                } else {
                    i += 1;
                }
            },
        }
    }
    None
}

/// `s` without a single matching pair of surrounding quotes, if present.
pub open spec fn spec_unquote(s: Seq<char>) -> Seq<char> {
    if s.len() >= 2 && is_quote(s[0]) && s.last() == s[0] {
        s.subrange(1, s.len() - 1)
    } else {
        s
    }
}

/// Strip a single matching pair of surrounding quotes, if present.
pub fn unquote(s: &[char]) -> (r: Vec<char>)
    ensures
        r@ == spec_unquote(s@),
{
    let n = s.len();
    if n >= 2 && (s[0] == '\'' || s[0] == '"') && s[n - 1] == s[0] {
        slice_chars(s, 1, n - 1)
    } else {
        slice_chars(s, 0, n)
    }
}

/// A camelCase key character in kebab-case: an ASCII uppercase letter becomes
/// `-` and its lowercase form.
pub open spec fn kebab_char(c: char) -> Seq<char> {
    if is_ascii_upper(c) {
        seq!['-', ((c as u32) + 32) as char]
    } else {
        seq![c]
    }
}

/// A key converted character by character to kebab-case.
pub open spec fn kebab(s: Seq<char>) -> Seq<char>
    decreases s.len(),
{
    if s.len() == 0 {
        seq![]
    } else {
        kebab(s.drop_last()) + kebab_char(s.last())
    }
}

/// A `:style` object key as a CSS property name: a quoted key verbatim (after
/// unquoting), a bare camelCase key in kebab-case (`fontSize` → `font-size`).
pub open spec fn spec_css_prop_name(key: Seq<char>) -> Seq<char> {
    let k = trim_seq(key);
    if k.len() > 0 && is_quote(k[0]) {
        spec_unquote(k)
    } else {
        kebab(k)
    }
}

/// Normalize a `:style` object key to a CSS property name. A quoted key is taken
/// verbatim (after unquoting); a bare camelCase key is converted to kebab-case
/// (`fontSize` → `font-size`), matching Vue's `:style` key handling.
pub fn css_prop_name(key: &[char]) -> (r: Vec<char>)
    ensures
        r@ == spec_css_prop_name(key@),
{
    let k = trim(key);
    if k.len() > 0 && (k[0] == '\'' || k[0] == '"') {
        return unquote(&k);
    }
    let mut out: Vec<char> = Vec::new();
    let mut i: usize = 0;
    while i < k.len()
        invariant
            i <= k@.len(),
            out@ == kebab(k@.take(i as int)),
        decreases k@.len() - i,
    {
        let c = k[i];
        if 'A' <= c && c <= 'Z' {
            out.push('-');
            out.push(((c as u8) + 32) as char);
        } else {
            out.push(c);
        }
        assert(k@.take(i + 1).drop_last() =~= k@.take(i as int));
        assert(out@ =~= kebab(k@.take(i as int + 1)));
        i += 1;
    }
    assert(k@.take(k@.len() as int) =~= k@);
    out
}

} // verus!

verus! {

/// What `char::to_uppercase` yields for `c` (possibly several characters).
pub uninterp spec fn upper_of(c: char) -> Seq<char>;

/// The uppercase mapping of a character (`char::to_uppercase`, collected).
/// The Unicode case tables are std's; the contract only names the result.
#[verifier::external_body]
fn to_uppercase(c: char) -> (r: Vec<char>)
    ensures
        r@ == upper_of(c),
{
    c.to_uppercase().collect()
}

/// The camelized rest of `s` from `i`, where `upper` says a `-` was just dropped.
pub open spec fn camel_from(s: Seq<char>, i: int, upper: bool) -> Seq<char>
    decreases s.len() - i,
{
    if i < 0 || i >= s.len() {
        seq![]
    } else if s[i] == '-' {
        camel_from(s, i + 1, true)
    } else if upper {
        upper_of(s[i]) + camel_from(s, i + 1, false)
    } else {
        seq![s[i]] + camel_from(s, i + 1, false)
    }
}

/// Camelize a kebab-case bound name (`view-box` → `viewBox`), for the `.camel`
/// modifier: each `-` is dropped and the character after it uppercased.
pub fn camelize(name: &str) -> (r: String)
    ensures
        r@ == camel_from(name@, 0, false),
{
    let v = chars_of(name);
    let mut out: Vec<char> = Vec::new();
    let mut upper_next = false;
    let mut i: usize = 0;
    while i < v.len()
        invariant
            i <= v@.len(),
            v@ == name@,
            camel_from(v@, 0, false) == out@ + camel_from(v@, i as int, upper_next),
        decreases v@.len() - i,
    {
        let c = v[i];
        let ghost before = out@;
        if c == '-' {
            upper_next = true;
        } else if upper_next {
            out = concat(&out, &to_uppercase(c));
            upper_next = false;
            assert(before + (upper_of(c) + camel_from(v@, i + 1, false)) =~= out@ + camel_from(v@, i + 1, false));
        } else {
            out.push(c);
            assert(before + (seq![c] + camel_from(v@, i + 1, false)) =~= out@ + camel_from(v@, i + 1, false));
        }
        i += 1;
    }
    string_of(&out)
}

/// If `name` is a dynamic argument `[expr]modifiers`, the trimmed inner `expr`
/// and the text after the `]`.
pub open spec fn spec_dynamic_arg(name: Seq<char>) -> Option<(Seq<char>, Seq<char>)> {
    if name.len() > 0 && name[0] == '[' {
        let rest = name.drop_first();
        match find_from(rest, seq![']'], 0) {
            Some(end) => Some((trim_seq(rest.take(end)), rest.skip(end + 1))),
            None => None,
        }
    } else {
        None
    }
}

/// If `name` is a dynamic argument `[expr]modifiers` (produced by the parser for
/// `:[expr]` / `@[expr]`), return the inner `expr` and any trailing `.modifiers`.
/// A real attribute name never starts with `[`, so this is unambiguous.
pub fn dynamic_arg(name: &[char]) -> (r: Option<(Vec<char>, Vec<char>)>)
    ensures
        match (r, spec_dynamic_arg(name@)) {
            (Some((a, m)), Some((sa, sm))) => a@ == sa && m@ == sm,
            (None, None) => true,
            _ => false,
        },
{
    if name.len() == 0 || name[0] != '[' {
        return None;
    }
    let rest = slice_chars(name, 1, name.len());
    assert(rest@ =~= name@.drop_first());
    let close = [']'];
    assert(close@ =~= seq![']']);
    match find(&rest, &close, 0) {
        None => None,
        Some(end) => {
            proof { lemma_find_from(rest@, close@, 0); }
            let arg = trim(&slice_chars(&rest, 0, end));
            let mods = slice_chars(&rest, end + 1, rest.len());
            assert(rest@.take(end as int) =~= rest@.subrange(0, end as int));
            assert(mods@ =~= rest@.skip(end + 1));
            Some((arg, mods))
        },
    }
}

/// Split a bound attribute name into its base name and `.`-separated modifiers
/// (`value.prop` → `("value", ["prop"])`).
pub fn split_modifiers(name: &[char]) -> (r: (Vec<char>, Vec<Vec<char>>))
    ensures
        r.0@ == split_seq(name@, '.')[0],
        views(r.1@) == split_seq(name@, '.').drop_first(),
{
    let mut parts = split_chars(name, '.');
    proof { lemma_split_nonempty(name@, '.'); }
    let ghost all = views(parts@);
    let base = parts.remove(0);
    assert(views(parts@) =~= all.drop_first());
    (base, parts)
}

} // verus!
