//! Scoped-style helpers: deriving a scope id and rewriting CSS to target it.
use vstd::prelude::*;
use crate::text::{
    chars_of, concat, find, find_from, join_chars, join_seq, lemma_find_from, slice_chars,
    split_chars, split_seq, string_of, trim, trim_seq, views,
};

use std::collections::hash_map::DefaultHasher;
use std::hash::{Hash, Hasher};

verus! {

/// What `DefaultHasher::new()` yields after hashing the string `seed`
/// (`str`'s `Hash` impl, then `Hasher::finish`).
pub uninterp spec fn default_hash_of(seed: Seq<char>) -> u64;

/// Hashes `seed` with a fresh `std::collections::hash_map::DefaultHasher`.
/// Its documentation says every hasher made by `DefaultHasher::new()` is the
/// same as every other one made that way, so the result depends on `seed`
/// alone; which number it is the contract leaves to that named result.
#[verifier::external_body]
fn default_hash(seed: &str) -> (h: u64)
    ensures
        h == default_hash_of(seed@),
{
    let mut hasher = DefaultHasher::new();
    seed.hash(&mut hasher);
    hasher.finish()
}

/// The lowercase hexadecimal digit for `n < 16`.
pub open spec fn hex_digit(n: int) -> char {
    if n < 10 {
        (('0' as int) + n) as char
    } else {
        (('a' as int) + n - 10) as char
    }
}

/// The last `width` lowercase hexadecimal digits of `x`, zero-padded
/// (`format!("{:0width$x}")` when `x < 16^width`).
pub open spec fn hex_pad(x: nat, width: nat) -> Seq<char>
    decreases width,
{
    if width == 0 {
        seq![]
    } else {
        hex_pad(x / 16, (width - 1) as nat).push(hex_digit((x % 16) as int))
    }
}

/// The scope id of a seed: the low 32 bits of its hash as eight hex digits.
pub open spec fn spec_scope_id(seed: Seq<char>) -> Seq<char> {
    hex_pad((default_hash_of(seed) as u32) as nat, 8)
}

fn hex_digit_exec(n: u32) -> (c: char)
    requires
        n < 16,
    ensures
        c == hex_digit(n as int),
{
    if n < 10 {
        ((48 + n) as u8) as char
    } else {
        ((97 + n - 10) as u8) as char
    }
}

fn hex_pad_exec(x: u32, width: usize) -> (r: Vec<char>)
    ensures
        r@ == hex_pad(x as nat, width as nat),
    decreases width,
{
    if width == 0 {
        Vec::new()
    } else {
        let mut r = hex_pad_exec(x / 16, width - 1);
        r.push(hex_digit_exec(x % 16));
        r
    }
}

/// Derive a short, stable-per-build scope id from a seed (e.g. the file path).
pub fn scope_id(seed: &str) -> (r: String)
    ensures
        r@ == spec_scope_id(seed@),
{
    let h = default_hash(seed);
    let low = (h % 0x1_0000_0000) as u32;
    assert(low == h as u32) by (bit_vector)
        requires low == (h % 0x1_0000_0000) as u32;
    string_of(&hex_pad_exec(low, 8))
}

/// Bracket nesting after reading `c` at nesting `d`: `[`/`(` open, `]`/`)`
/// close (never below zero).
pub open spec fn depth_step(d: int, c: char) -> int {
    if c == '[' || c == '(' {
        d + 1
    } else if c == ']' || c == ')' {
        if d > 1 { d - 1 } else { 0 }
    } else {
        d
    }
}

/// Bracket nesting before index `i` of `s`.
pub open spec fn depth_before(s: Seq<char>, i: int) -> int
    decreases i,
{
    if i <= 0 {
        0
    } else {
        depth_step(depth_before(s, i - 1), s[i - 1])
    }
}

/// A selector combinator character (whitespace, `>`, `+`, `~`).
pub open spec fn is_combinator(c: char) -> bool {
    c == ' ' || c == '\t' || c == '\n' || c == '>' || c == '+' || c == '~'
}

/// Where the last compound selector among the first `i` characters of `s`
/// starts: just after the last combinator outside brackets, or 0.
pub open spec fn compound_start(s: Seq<char>, i: int) -> int
    decreases i,
{
    if i <= 0 {
        0
    } else if is_combinator(s[i - 1]) && depth_before(s, i - 1) == 0 {
        i
    } else {
        compound_start(s, i - 1)
    }
}

/// The index of the first `:` outside brackets in `s` at or after `i`, given
/// nesting `d` at `i` (or `s.len()` when there is none).
pub open spec fn first_top_colon(s: Seq<char>, i: int, d: int) -> int
    decreases s.len() - i,
{
    if i < 0 || i >= s.len() {
        s.len() as int
    } else if s[i] == ':' && d == 0 {
        i
    } else {
        first_top_colon(s, i + 1, depth_step(d, s[i]))
    }
}

/// `compound_start` lies within the characters it looked at.
proof fn lemma_compound_start_range(s: Seq<char>, i: int)
    requires
        0 <= i,
    ensures
        0 <= compound_start(s, i) <= i,
    decreases i,
{
    if i > 0 && !(is_combinator(s[i - 1]) && depth_before(s, i - 1) == 0) {
        lemma_compound_start_range(s, i - 1);
    }
}

/// `first_top_colon` lies between where it starts and the end.
proof fn lemma_first_top_colon_range(s: Seq<char>, i: int, d: int)
    requires
        0 <= i <= s.len(),
    ensures
        i <= first_top_colon(s, i, d) <= s.len(),
    decreases s.len() - i,
{
    if i < s.len() && !(s[i] == ':' && d == 0) {
        lemma_first_top_colon_range(s, i + 1, depth_step(d, s[i]));
    }
}

/// Scoping a selector inserts the marker once and changes nothing else:
/// removing it gives the selector back.
pub proof fn law_scope_selector_inserts_marker(sel: Seq<char>, marker: Seq<char>)
    ensures
        exists|k: int| 0 <= k <= sel.len() && #[trigger] spec_scope_selector(sel, marker) == sel.take(k) + marker + sel.skip(k),
{
    let cs = compound_start(sel, sel.len() as int);
    lemma_compound_start_range(sel, sel.len() as int);
    let compound = sel.skip(cs);
    let at = first_top_colon(compound, 0, 0);
    lemma_first_top_colon_range(compound, 0, 0);
    let k = cs + at;
    assert(sel.take(cs) + compound.take(at) =~= sel.take(k));
    assert(compound.skip(at) =~= sel.skip(k));
    assert(spec_scope_selector(sel, marker) =~= sel.take(k) + marker + sel.skip(k));
}

/// No combinator stands outside brackets from where the last compound starts.
proof fn lemma_compound_start_last(s: Seq<char>, n: int)
    requires
        0 <= n <= s.len(),
    ensures
        forall|i: int| compound_start(s, n) <= i < n ==> !(is_combinator(#[trigger] s[i]) && depth_before(s, i) == 0),
        compound_start(s, n) == 0 || (is_combinator(s[compound_start(s, n) - 1]) && depth_before(
            s,
            compound_start(s, n) - 1,
        ) == 0),
    decreases n,
{
    if n > 0 && !(is_combinator(s[n - 1]) && depth_before(s, n - 1) == 0) {
        lemma_compound_start_last(s, n - 1);
    }
}

/// `first_top_colon` run over the last compound of `sel` (starting at `cs`)
/// finds the first `:` outside brackets of `sel` in it.
proof fn lemma_first_top_colon_in(sel: Seq<char>, cs: int, t: int)
    requires
        0 <= cs <= sel.len(),
        0 <= t <= sel.len() - cs,
        depth_before(sel, cs) == 0,
    ensures
        ({
            let r = first_top_colon(sel.skip(cs), t, depth_before(sel, cs + t));
            &&& t <= r <= sel.len() - cs
            &&& forall|u: int| t <= u < r ==> !(#[trigger] sel[cs + u] == ':' && depth_before(sel, cs + u) == 0)
            &&& r == sel.len() - cs || (sel[cs + r] == ':' && depth_before(sel, cs + r) == 0)
        }),
    decreases sel.len() - cs - t,
{
    let c = sel.skip(cs);
    if t < c.len() {
        assert(c[t] == sel[cs + t]);
        assert(depth_before(sel, cs + t + 1) == depth_step(depth_before(sel, cs + t), sel[cs + t]));
        lemma_first_top_colon_in(sel, cs, t + 1);
    }
}

/// Scoping a selector marks its last compound: the marker goes in once, after
/// every combinator (whitespace, `>`, `+`, `~`) outside brackets, and before
/// that compound's first pseudo-class or pseudo-element (a `:` outside
/// brackets) or at the end.
#[verifier::spinoff_prover]
#[verifier::rlimit(50)]
pub proof fn law_scope_selector_marks_last_compound(sel: Seq<char>, marker: Seq<char>)
    ensures
        exists|k: int| {
            &&& 0 <= k <= sel.len()
            &&& spec_scope_selector(sel, marker) == #[trigger] sel.take(k) + marker + sel.skip(k)
            &&& forall|i: int| k <= i < sel.len() && depth_before(sel, i) == 0 ==> !(#[trigger] sel[i] == ' ' || sel[i]
                == '\t' || sel[i] == '\n' || sel[i] == '>' || sel[i] == '+' || sel[i] == '~')
            &&& k == sel.len() || (sel[k] == ':' && depth_before(sel, k) == 0)
            &&& forall|i: int| 0 <= i < k && #[trigger] sel[i] == ':' && depth_before(sel, i) == 0 ==> exists|j: int|
                i < j < k && depth_before(sel, j) == 0 && (#[trigger] sel[j] == ' ' || sel[j] == '\t' || sel[j] == '\n'
                    || sel[j] == '>' || sel[j] == '+' || sel[j] == '~')
        },
{
    let n = sel.len() as int;
    let cs = compound_start(sel, n);
    lemma_compound_start_range(sel, n);
    lemma_compound_start_last(sel, n);
    if cs > 0 {
        assert(depth_before(sel, cs) == depth_step(depth_before(sel, cs - 1), sel[cs - 1]));
    }
    assert(depth_before(sel, cs) == 0);
    let compound = sel.skip(cs);
    let at = first_top_colon(compound, 0, 0);
    lemma_first_top_colon_in(sel, cs, 0);
    let k = cs + at;
    assert(sel.take(cs) + compound.take(at) =~= sel.take(k));
    assert(compound.skip(at) =~= sel.skip(k));
    assert(spec_scope_selector(sel, marker) =~= sel.take(k) + marker + sel.skip(k));
    assert forall|i: int| k <= i < sel.len() && depth_before(sel, i) == 0 implies !(#[trigger] sel[i] == ' ' || sel[i]
        == '\t' || sel[i] == '\n' || sel[i] == '>' || sel[i] == '+' || sel[i] == '~') by {
        assert(!(is_combinator(sel[i]) && depth_before(sel, i) == 0));
    }
    assert(k == sel.len() || (sel[k] == ':' && depth_before(sel, k) == 0));
    assert forall|i: int| 0 <= i < k && #[trigger] sel[i] == ':' && depth_before(sel, i) == 0 implies exists|j: int|
        i < j < k && depth_before(sel, j) == 0 && (#[trigger] sel[j] == ' ' || sel[j] == '\t' || sel[j] == '\n'
            || sel[j] == '>' || sel[j] == '+' || sel[j] == '~') by {
        if i >= cs {
            assert(sel[cs + (i - cs)] == ':');
            assert(false);
        } else {
            assert(is_combinator(sel[cs - 1]));
            assert(sel[cs - 1] != ':');
            assert(i < cs - 1 < k);
            assert(depth_before(sel, cs - 1) == 0);
        }
    }
}

/// A lowercase hexadecimal digit.
pub open spec fn is_hex_digit(c: char) -> bool {
    ('0' <= c <= '9') || ('a' <= c <= 'f')
}

/// `hex_pad` gives exactly `width` hexadecimal digits.
proof fn lemma_hex_pad_shape(x: nat, width: nat)
    ensures
        hex_pad(x, width).len() == width,
        forall|i: int| 0 <= i < width ==> is_hex_digit(#[trigger] hex_pad(x, width)[i]),
    decreases width,
{
    if width > 0 {
        lemma_hex_pad_shape(x / 16, (width - 1) as nat);
        let d = (x % 16) as int;
        assert(is_hex_digit(hex_digit(d)));
        assert forall|i: int| 0 <= i < width implies is_hex_digit(#[trigger] hex_pad(x, width)[i]) by {
            if i < width - 1 {
                assert(hex_pad(x, width)[i] == hex_pad(x / 16, (width - 1) as nat)[i]);
            }
        }
    }
}

/// Every scope id is eight lowercase hexadecimal digits, so the marker
/// attribute `data-v-<id>` is always a valid attribute name.
pub proof fn law_scope_id_shape(seed: Seq<char>)
    ensures
        spec_scope_id(seed).len() == 8,
        forall|i: int| 0 <= i < 8 ==> is_hex_digit(#[trigger] spec_scope_id(seed)[i]),
{
    lemma_hex_pad_shape((default_hash_of(seed) as u32) as nat, 8);
}

/// `sel` with `marker` inserted at the end of its last compound selector,
/// before that compound's first pseudo-class/element.
pub open spec fn spec_scope_selector(sel: Seq<char>, marker: Seq<char>) -> Seq<char> {
    let cs = compound_start(sel, sel.len() as int);
    let compound = sel.skip(cs);
    let at = first_top_colon(compound, 0, 0);
    sel.take(cs) + compound.take(at) + marker + compound.skip(at)
}

/// A comma-separated selector list with each (trimmed) selector scoped,
/// rejoined with `", "`.
pub open spec fn scope_selector_list(sels: Seq<char>, marker: Seq<char>) -> Seq<char> {
    join_seq(split_seq(sels, ',').map_values(|sel: Seq<char>| spec_scope_selector(trim_seq(sel), marker)), ", "@)
}

/// One rule: the selectors before its first `{` are scoped; the body is kept.
/// A piece with no `{` is kept unchanged.
pub open spec fn scope_rule(rule: Seq<char>, marker: Seq<char>) -> Seq<char> {
    match find_from(rule, seq!['{'], 0) {
        None => rule,
        Some(b) => scope_selector_list(rule.take(b), marker) + rule.skip(b),
    }
}

/// The rules of `css` from index `from` on, each ending at (and including)
/// its `}`, scoped and concatenated.
pub open spec fn scope_rules_from(css: Seq<char>, from: int, marker: Seq<char>) -> Seq<char>
    decreases css.len() - from,
{
    if from < 0 || from >= css.len() {
        seq![]
    } else {
        match find_from(css, seq!['}'], from) {
            None => scope_rule(css.skip(from), marker),
            Some(k) => {
                proof { lemma_find_from(css, seq!['}'], from); }
                scope_rule(css.subrange(from, k + 1), marker) + scope_rules_from(css, k + 1, marker)
            },
        }
    }
}

/// The `[data-v-<id>]` attribute selector for a scope id.
pub open spec fn scope_marker(id: Seq<char>) -> Seq<char> {
    "[data-v-"@ + id + "]"@
}

/// `css` with every selector scoped to `id`.
pub open spec fn spec_scope_css(css: Seq<char>, id: Seq<char>) -> Seq<char> {
    scope_rules_from(css, 0, scope_marker(id))
}

/// Insert `marker` into a single (already trimmed) selector: at the end of the
/// last compound selector, but before its first pseudo-class/element.
fn scope_selector(sel: &[char], marker: &[char]) -> (r: Vec<char>)
    ensures
        r@ == spec_scope_selector(sel@, marker@),
{
    // Start of the last compound selector = just after the last top-level
    // combinator. Chars inside `[]`/`()` are skipped so attribute selectors and
    // pseudo args don't split the compound.
    let n = sel.len();
    let mut depth: usize = 0;
    let mut cs: usize = 0;
    let mut i: usize = 0;
    while i < n
        invariant
            n == sel@.len(),
            i <= n,
            depth <= i,
            depth == depth_before(sel@, i as int),
            cs == compound_start(sel@, i as int),
            cs <= i,
        decreases n - i,
    {
        let c = sel[i];
        if (c == ' ' || c == '\t' || c == '\n' || c == '>' || c == '+' || c == '~') && depth == 0 {
            cs = i + 1;
        }
        if c == '[' || c == '(' {
            depth = depth + 1;
        } else if c == ']' || c == ')' {
            if depth > 1 { depth = depth - 1; } else { depth = 0; }
        }
        i += 1;
    }
    let head = slice_chars(sel, 0, cs);
    let compound = slice_chars(sel, cs, n);
    assert(compound@ =~= sel@.skip(cs as int));
    // Within the compound, the marker goes before the first top-level `:`.
    let m = compound.len();
    let mut d: usize = 0;
    let mut j: usize = 0;
    while j < m && !(compound[j] == ':' && d == 0)
        invariant
            m == compound@.len(),
            j <= m,
            d <= j,
            first_top_colon(compound@, 0, 0) == first_top_colon(compound@, j as int, d as int),
        decreases m - j,
    {
        let c = compound[j];
        if c == '[' || c == '(' {
            d = d + 1;
        } else if c == ']' || c == ')' {
            if d > 1 { d = d - 1; } else { d = 0; }
        }
        j += 1;
    }
    let base = slice_chars(&compound, 0, j);
    let pseudo = slice_chars(&compound, j, m);
    assert(pseudo@ =~= compound@.skip(j as int));
    assert(head@ =~= sel@.take(cs as int));
    concat(&concat(&concat(&head, &base), marker), &pseudo)
}

/// Scope each selector of a comma-separated list and rejoin them with `", "`.
fn scope_selectors(sels: &[char], marker: &[char]) -> (r: Vec<char>)
    ensures
        r@ == scope_selector_list(sels@, marker@),
{
    let pieces = split_chars(sels, ',');
    let ghost f = |sel: Seq<char>| spec_scope_selector(trim_seq(sel), marker@);
    let mut scoped: Vec<Vec<char>> = Vec::new();
    let mut i: usize = 0;
    while i < pieces.len()
        invariant
            i <= pieces@.len(),
            views(pieces@) == split_seq(sels@, ','),
            views(scoped@) == views(pieces@).take(i as int).map_values(f),
            f == (|sel: Seq<char>| spec_scope_selector(trim_seq(sel), marker@)),
        decreases pieces@.len() - i,
    {
        let t = trim(&pieces[i]);
        let s = scope_selector(&t, marker);
        let ghost before = views(scoped@);
        scoped.push(s);
        i += 1;
        assert(views(scoped@) =~= before.push(s@));
        assert(views(pieces@)[i - 1] == pieces@[i - 1]@);
        assert(f(pieces@[i - 1]@) == s@);
        assert(views(pieces@).take(i as int) =~= views(pieces@).take(i - 1).push(pieces@[i - 1]@));
        assert(views(scoped@) =~= views(pieces@).take(i as int).map_values(f));
    }
    assert(views(pieces@).take(pieces@.len() as int) =~= views(pieces@));
    let sep = chars_of(", ");
    join_chars(&scoped, &sep)
}

/// Scope one rule (a piece of the stylesheet ending at its `}`).
fn scope_one_rule(rule: &[char], marker: &[char]) -> (r: Vec<char>)
    ensures
        r@ == scope_rule(rule@, marker@),
{
    let open = ['{'];
    assert(open@ =~= seq!['{']);
    match find(rule, &open, 0) {
        None => slice_chars(rule, 0, rule.len()).clone(),
        Some(b) => {
            proof { lemma_find_from(rule@, open@, 0); }
            let selectors = slice_chars(rule, 0, b);
            let body = slice_chars(rule, b, rule.len());
            assert(selectors@ =~= rule@.take(b as int));
            assert(body@ =~= rule@.skip(b as int));
            let scoped = scope_selectors(&selectors, marker);
            concat(&scoped, &body)
        },
    }
}

/// Rewrite each selector to also require the `[data-v-<id>]` marker attribute,
/// so the rules only match this component's elements.
///
/// The marker is placed on the last compound selector (the rightmost target),
/// before any pseudo-class/pseudo-element so the result stays valid CSS:
/// `button:hover` becomes `button[data-v-id]:hover`, `.a .b` becomes
/// `.a .b[data-v-id]`. Combinator and `:` characters inside `[...]`/`(...)`
/// (e.g. `:nth-child(2n+1)`) are not treated as structure.
pub fn scope_css(css: &str, scope_id: &str) -> (r: String)
    ensures
        r@ == spec_scope_css(css@, scope_id@),
{
    let css = chars_of(css);
    let marker = concat(&concat(&chars_of("[data-v-"), &chars_of(scope_id)), &chars_of("]"));
    let close = ['}'];
    assert(close@ =~= seq!['}']);
    let n = css.len();
    let mut out: Vec<char> = Vec::new();
    let mut from: usize = 0;
    while from < n
        invariant
            n == css@.len(),
            from <= n,
            close@ == seq!['}'],
            marker@ == scope_marker(scope_id@),
            out@ + scope_rules_from(css@, from as int, marker@) == scope_rules_from(css@, 0, marker@),
        decreases n - from,
    {
        match find(&css, &close, from) {
            None => {
                let rule = slice_chars(&css, from, n);
                assert(rule@ =~= css@.skip(from as int));
                let scoped = scope_one_rule(&rule, &marker);
                out = concat(&out, &scoped);
                from = n;
            },
            Some(k) => {
                proof { lemma_find_from(css@, close@, from as int); }
                let rule = slice_chars(&css, from, k + 1);
                let scoped = scope_one_rule(&rule, &marker);
                let ghost before = out@;
                out = concat(&out, &scoped);
                assert(out@ + scope_rules_from(css@, k + 1, marker@) =~= before + scope_rules_from(css@, from as int, marker@));
                from = k + 1;
            },
        }
    }
    string_of(&out)
}

} // verus!
