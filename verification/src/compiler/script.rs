//! Rewrites Vue authoring spellings in a `<script>` body onto the reactive core.
//!
//! `ref` is a Rust keyword, so it cannot name the core constructor. The core
//! exposes `signal`; this rewrite lets a `.vrs` author write Vue's `ref(...)`
//! (and `use ...::ref`) and maps the constructor call and its import path to
//! `signal`. Genuine `ref` binding patterns (`let ref x`, `Some(ref v)`) are
//! left untouched. Vue's `watchEffect` maps the same way onto the core's
//! `effect`.
use vstd::prelude::*;
use proc_macro2::{Delimiter, Spacing, TokenStream, TokenTree};
use crate::compiler::tokens::{lex_source, SourceTokens};
use crate::sfc::CompileError;
use crate::text::{cat, str_eq};

verus! {

/// The delimiter of a token group.
#[derive(PartialEq, Eq, Structural, Clone, Copy)]
pub enum Delim {
    Paren,
    Brace,
    Bracket,
    Invisible,
}

/// A lexed Rust token: an identifier, a punctuation character (joint when the
/// next character continues an operator), a literal as spelled, or a
/// delimited group.
pub enum Tok {
    Ident(String),
    Punct(char, bool),
    Literal(String),
    Group(Delim, Vec<Tok>),
}

/// The view of a token.
pub enum TokV {
    Ident(Seq<char>),
    Punct(char, bool),
    Literal(Seq<char>),
    Group(Delim, Seq<TokV>),
}

/// The view of a token.
pub open spec fn tok_view(t: Tok) -> TokV
    decreases t,
{
    match t {
        Tok::Ident(s) => TokV::Ident(s@),
        Tok::Punct(c, j) => TokV::Punct(c, j),
        Tok::Literal(s) => TokV::Literal(s@),
        Tok::Group(d, inner) => TokV::Group(d, toks_view(inner@)),
    }
}

/// The views of a sequence of tokens.
pub open spec fn toks_view(s: Seq<Tok>) -> Seq<TokV>
    decreases s,
{
    if s.len() == 0 {
        seq![]
    } else {
        seq![tok_view(s[0])] + toks_view(s.subrange(1, s.len() as int))
    }
}

/// The token trees a `proc_macro2::TokenStream` holds, in order, as plain
/// values: each tree's kind, spelling, punctuation spacing and group
/// delimiter, a group holding the trees of its own stream.
pub uninterp spec fn stream_trees(ts: TokenStream) -> Seq<TokV>;

/// `src.parse::<proc_macro2::TokenStream>()` on proc-macro2's fallback
/// implementation: the trees of the stream, or the lexer's error message.
pub uninterp spec fn tokens_lexed(src: Seq<char>) -> Result<Seq<TokV>, Seq<char>>;

/// A token tree as `TokenStream::into_iter` hands it out, a group keeping its
/// delimiter and its stream.
pub enum Tree {
    Ident(String),
    Punct(char, bool),
    Literal(String),
    Group(Delim, TokenStream),
}

/// The view of a token tree: a group's contents are the trees of its stream.
pub open spec fn tree_view(t: Tree) -> TokV {
    match t {
        Tree::Ident(s) => TokV::Ident(s@),
        Tree::Punct(c, j) => TokV::Punct(c, j),
        Tree::Literal(s) => TokV::Literal(s@),
        Tree::Group(d, ts) => TokV::Group(d, stream_trees(ts)),
    }
}

/// The views of a sequence of token trees.
pub open spec fn trees_view(s: Seq<Tree>) -> Seq<TokV> {
    s.map_values(|t: Tree| tree_view(t))
}

/// Lexes `src` with `proc_macro2::TokenStream::from_str`, with proc-macro2's
/// fallback implementation forced for the call, so which sources lex, the
/// trees they give and the error message depend on `src` alone; the contract
/// names them.
#[verifier::external_body]
pub(crate) fn lex_stream(src: &str) -> (r: Result<TokenStream, String>)
    ensures
        match r {
            Ok(ts) => tokens_lexed(src@) == Ok::<Seq<TokV>, Seq<char>>(stream_trees(ts)),
            Err(e) => tokens_lexed(src@) == Err::<Seq<TokV>, Seq<char>>(e@),
        },
{
    proc_macro2::fallback::force();
    let r = src.parse::<TokenStream>().map_err(|e| e.to_string());
    proc_macro2::fallback::unforce();
    r
}

/// The top-level trees of a stream (`TokenStream::into_iter`), each converted
/// to a plain value: an identifier's and a literal's spelling, a punctuation
/// character and whether it is joint, a group's delimiter and stream.
#[verifier::external_body]
fn trees_of(ts: &TokenStream) -> (r: Vec<Tree>)
    ensures
        trees_view(r@) == stream_trees(*ts),
{
    ts.clone().into_iter().map(|t| match t {
        TokenTree::Ident(i) => Tree::Ident(i.to_string()),
        TokenTree::Punct(p) => Tree::Punct(p.as_char(), p.spacing() == Spacing::Joint),
        TokenTree::Literal(l) => Tree::Literal(l.to_string()),
        TokenTree::Group(g) => Tree::Group(match g.delimiter() {
            Delimiter::Parenthesis => Delim::Paren,
            Delimiter::Brace => Delim::Brace,
            Delimiter::Bracket => Delim::Bracket,
            Delimiter::None => Delim::Invisible,
        }, g.stream()),
    }).collect()
}

} // verus!

verus! {

/// `toks_view` preserves length and maps each token.
pub proof fn lemma_toks_view_index(a: Seq<Tok>)
    ensures
        toks_view(a).len() == a.len(),
        forall|i: int| 0 <= i < a.len() ==> #[trigger] toks_view(a)[i] == tok_view(a[i]),
    decreases a.len(),
{
    if a.len() > 0 {
        let t = a.subrange(1, a.len() as int);
        lemma_toks_view_index(t);
        assert forall|i: int| 0 <= i < a.len() implies #[trigger] toks_view(a)[i] == tok_view(a[i]) by {
            if i > 0 {
                assert(toks_view(a)[i] == toks_view(t)[i - 1]);
                assert(t[i - 1] == a[i]);
            }
        }
    }
}

/// The core name a Vue authoring spelling maps to.
pub open spec fn mapped_name(s: Seq<char>) -> Option<Seq<char>> {
    if s == "ref"@ {
        Some("signal"@)
    } else if s == "watchEffect"@ {
        Some("effect"@)
    } else {
        None
    }
}

/// The token at `i` is immediately followed by a `(...)` group: a call.
pub open spec fn is_call(ts: Seq<TokV>, i: int) -> bool {
    0 <= i + 1 < ts.len() && (ts[i + 1] matches TokV::Group(d, _) && d == Delim::Paren)
}

/// A `:` punctuation token.
pub open spec fn is_colon(t: TokV) -> bool {
    t matches TokV::Punct(c, _) && c == ':'
}

/// The token at `i` is preceded by a `::` path separator.
pub open spec fn is_path_segment(ts: Seq<TokV>, i: int) -> bool {
    2 <= i <= ts.len() && is_colon(ts[i - 1]) && is_colon(ts[i - 2])
}

/// The tokens from `i` on with Vue spellings mapped where they act as a call
/// or an import-path segment, and every group rewritten likewise.
pub open spec fn rewrite_from(ts: Seq<TokV>, i: int) -> Seq<TokV>
    decreases ts, ts.len() - i + 1,
{
    if i < 0 || i >= ts.len() {
        seq![]
    } else {
        seq![rewrite_tok(ts, i)] + rewrite_from(ts, i + 1)
    }
}

/// The token at `i`, rewritten.
pub open spec fn rewrite_tok(ts: Seq<TokV>, i: int) -> TokV
    decreases ts, 0int,
{
    if 0 <= i < ts.len() {
        match ts[i] {
            TokV::Ident(id) => match mapped_name(id) {
                Some(to) => if is_call(ts, i) || is_path_segment(ts, i) { TokV::Ident(to) } else { ts[i] },
                None => ts[i],
            },
            TokV::Group(d, inner) => TokV::Group(d, rewrite_from(inner, 0)),
            _ => ts[i],
        }
    } else {
        ts[i]
    }
}

/// The opening delimiter of a group.
pub open spec fn open_of(d: Delim) -> Seq<char> {
    match d {
        Delim::Paren => "("@,
        Delim::Brace => "{"@,
        Delim::Bracket => "["@,
        Delim::Invisible => Seq::<char>::empty(),
    }
}

/// The closing delimiter of a group.
pub open spec fn close_of(d: Delim) -> Seq<char> {
    match d {
        Delim::Paren => ")"@,
        Delim::Brace => "}"@,
        Delim::Bracket => "]"@,
        Delim::Invisible => Seq::<char>::empty(),
    }
}

/// The spelling of the tokens from `i` on: each token followed by a space,
/// except a joint punctuation character, which the next token follows directly.
pub open spec fn render_from(ts: Seq<TokV>, i: int) -> Seq<char>
    decreases ts, ts.len() - i + 1,
{
    if i < 0 || i >= ts.len() {
        seq![]
    } else {
        render_tok(ts, i) + render_from(ts, i + 1)
    }
}

/// The spelling of the token at `i`.
pub open spec fn render_tok(ts: Seq<TokV>, i: int) -> Seq<char>
    decreases ts, 0int,
{
    if 0 <= i < ts.len() {
        match ts[i] {
            TokV::Ident(s) => s + " "@,
            TokV::Literal(s) => s + " "@,
            TokV::Punct(c, joint) => if joint { seq![c] } else { seq![c] + " "@ },
            TokV::Group(d, inner) => open_of(d) + render_from(inner, 0) + close_of(d) + " "@,
        }
    } else {
        seq![]
    }
}

/// The rewritten script's spelling, or the error for a script that does not lex.
pub open spec fn script_text(script: Seq<char>) -> Result<Seq<char>, Seq<char>> {
    match tokens_lexed(script) {
        Err(e) => Err("invalid <script>: "@ + e),
        Ok(ts) => Ok(render_from(rewrite_from(ts, 0), 0)),
    }
}

/// The token trees `ts` with Vue spellings mapped, recursing into groups.
fn rewrite_stream(ts: &Vec<Tok>) -> (r: Vec<Tok>)
    ensures
        toks_view(r@) == rewrite_from(toks_view(ts@), 0),
    decreases toks_view(ts@),
{
    let ghost tv = toks_view(ts@);
    proof { lemma_toks_view_index(ts@); }
    let mut out: Vec<Tok> = Vec::new();
    let mut i: usize = 0;
    while i < ts.len()
        invariant
            i <= ts@.len(),
            tv == toks_view(ts@),
            tv.len() == ts@.len(),
            forall|j: int| 0 <= j < ts@.len() ==> #[trigger] tv[j] == tok_view(ts@[j]),
            rewrite_from(tv, 0) == toks_view(out@) + rewrite_from(tv, i as int),
        decreases ts@.len() - i,
    {
        let t = match &ts[i] {
            Tok::Ident(id) => {
                let call = i + 1 < ts.len() && match &ts[i + 1] {
                    Tok::Group(d, _) => *d == Delim::Paren,
                    _ => false,
                };
                let path = i >= 2 && is_colon_tok(&ts[i - 1]) && is_colon_tok(&ts[i - 2]);
                let to = if str_eq(id.as_str(), "ref") {
                    Some("signal")
                } else if str_eq(id.as_str(), "watchEffect") {
                    Some("effect")
                } else {
                    None
                };
                match to {
                    Some(to) => if call || path {
                        Tok::Ident(String::from_str(to))
                    } else {
                        Tok::Ident(id.clone())
                    },
                    None => Tok::Ident(id.clone()),
                }
            },
            Tok::Punct(c, j) => Tok::Punct(*c, *j),
            Tok::Literal(s) => Tok::Literal(s.clone()),
            Tok::Group(d, inner) => {
                assert(tv[i as int] == TokV::Group(*d, toks_view(inner@)));
                Tok::Group(*d, rewrite_stream(inner))
            },
        };
        assert(tok_view(t) == rewrite_tok(tv, i as int)) by {
            if i + 1 < ts@.len() {
                assert(tv[i + 1] == tok_view(ts@[i + 1]));
            }
            if i >= 2 {
                assert(tv[i - 1] == tok_view(ts@[i - 1]));
                assert(tv[i - 2] == tok_view(ts@[i - 2]));
            }
        }
        let ghost before = out@;
        out.push(t);
        proof {
            lemma_toks_view_push(before, t);
            assert(toks_view(out@) + rewrite_from(tv, i + 1) =~= toks_view(before) + (seq![rewrite_tok(tv, i as int)]
                + rewrite_from(tv, i + 1)));
        }
        i += 1;
    }
    assert(toks_view(out@) + Seq::<TokV>::empty() =~= toks_view(out@));
    out
}

/// Whether `t` is a `:` punctuation token.
fn is_colon_tok(t: &Tok) -> (r: bool)
    ensures
        r == is_colon(tok_view(*t)),
{
    match t {
        Tok::Punct(c, _) => *c == ':',
        _ => false,
    }
}

/// `toks_view` of a pushed sequence.
pub proof fn lemma_toks_view_push(a: Seq<Tok>, t: Tok)
    ensures
        toks_view(a.push(t)) == toks_view(a).push(tok_view(t)),
{
    lemma_toks_view_index(a);
    lemma_toks_view_index(a.push(t));
    assert(toks_view(a.push(t)) =~= toks_view(a).push(tok_view(t)));
}

/// The trees of a stream, nested groups included, as tokens.
fn stream_toks(ts: &TokenStream) -> (r: Vec<Tok>)
    ensures
        toks_view(r@) == stream_trees(*ts),
    decreases stream_trees(*ts),
{
    let trees = trees_of(ts);
    let ghost tv = stream_trees(*ts);
    assert(tv.len() == trees@.len());
    let mut out: Vec<Tok> = Vec::new();
    let mut i: usize = 0;
    while i < trees.len()
        invariant
            i <= trees@.len(),
            tv == stream_trees(*ts),
            trees_view(trees@) == tv,
            toks_view(out@) == tv.take(i as int),
        decreases trees@.len() - i,
    {
        assert(tv[i as int] == tree_view(trees@[i as int]));
        let t = match &trees[i] {
            Tree::Ident(s) => Tok::Ident(s.clone()),
            Tree::Punct(c, j) => Tok::Punct(*c, *j),
            Tree::Literal(s) => Tok::Literal(s.clone()),
            Tree::Group(d, inner) => {
                assert(decreases_to!(tv => tv[i as int]));
                assert(tv[i as int]->Group_1 == stream_trees(*inner));
                assert(decreases_to!(tv[i as int] => tv[i as int]->Group_1));
                Tok::Group(*d, stream_toks(inner))
            },
        };
        assert(tok_view(t) == tv[i as int]);
        let ghost before = out@;
        out.push(t);
        proof {
            lemma_toks_view_push(before, t);
            assert(tv.take(i + 1) =~= tv.take(i as int).push(tv[i as int]));
        }
        i += 1;
    }
    assert(tv.take(tv.len() as int) =~= tv);
    out
}

/// Lex `src` into tokens (groups nested), or the lexer's error message.
pub(crate) fn lex_tokens(src: &str) -> (r: Result<Vec<Tok>, String>)
    ensures
        match r {
            Ok(v) => tokens_lexed(src@) == Ok::<Seq<TokV>, Seq<char>>(toks_view(v@)),
            Err(e) => tokens_lexed(src@) == Err::<Seq<TokV>, Seq<char>>(e@),
        },
{
    match lex_stream(src) {
        Ok(ts) => Ok(stream_toks(&ts)),
        Err(e) => Err(e),
    }
}

/// Append the spelling of `ts` to `out`.
pub(crate) fn render_stream(ts: &Vec<Tok>, out: &mut String)
    ensures
        final(out)@ == old(out)@ + render_from(toks_view(ts@), 0),
    decreases toks_view(ts@),
{
    let ghost tv = toks_view(ts@);
    let ghost start = out@;
    proof { lemma_toks_view_index(ts@); }
    let mut i: usize = 0;
    while i < ts.len()
        invariant
            i <= ts@.len(),
            tv == toks_view(ts@),
            tv.len() == ts@.len(),
            forall|j: int| 0 <= j < ts@.len() ==> #[trigger] tv[j] == tok_view(ts@[j]),
            start + render_from(tv, 0) == out@ + render_from(tv, i as int),
        decreases ts@.len() - i,
    {
        let ghost before = out@;
        match &ts[i] {
            Tok::Ident(s) => {
                out.append(s.as_str());
                out.append(" ");
            },
            Tok::Literal(s) => {
                out.append(s.as_str());
                out.append(" ");
            },
            Tok::Punct(c, joint) => {
                let mut p = String::new();
                push_char_of(&mut p, *c);
                out.append(p.as_str());
                if !*joint {
                    out.append(" ");
                }
            },
            Tok::Group(d, inner) => {
                assert(tv[i as int] == TokV::Group(*d, toks_view(inner@)));
                assert(i < tv.len());
                assert(decreases_to!(tv => tv[i as int]));
                assert(tv[i as int]->Group_1 == toks_view(inner@));
                assert(decreases_to!(tv[i as int] => tv[i as int]->Group_1));
                out.append(delim_open(*d));
                render_stream(inner, out);
                out.append(delim_close(*d));
                out.append(" ");
            },
        }
        assert(out@ == before + render_tok(tv, i as int));
        assert(out@ + render_from(tv, i + 1) =~= before + (render_tok(tv, i as int) + render_from(tv, i + 1)));
        i += 1;
    }
    assert(out@ + Seq::<char>::empty() =~= out@);
}

/// Append one character.
fn push_char_of(s: &mut String, c: char)
    ensures
        final(s)@ == old(s)@ + seq![c],
{
    let v = [c];
    let t = crate::text::string_of(&v);
    assert(v@ =~= seq![c]);
    s.append(t.as_str());
}

/// The opening delimiter's spelling.
fn delim_open(d: Delim) -> (r: &'static str)
    ensures
        r@ == open_of(d),
{
    match d {
        Delim::Paren => "(",
        Delim::Brace => "{",
        Delim::Bracket => "[",
        Delim::Invisible => {
            proof { reveal_strlit(""); }
            ""
        },
    }
}

/// The closing delimiter's spelling.
fn delim_close(d: Delim) -> (r: &'static str)
    ensures
        r@ == close_of(d),
{
    match d {
        Delim::Paren => ")",
        Delim::Brace => "}",
        Delim::Bracket => "]",
        Delim::Invisible => {
            proof { reveal_strlit(""); }
            ""
        },
    }
}

/// Rewrite Vue authoring spellings in a script body, spelled as source text.
pub fn rewrite_script_text(script: &str) -> (r: Result<String, CompileError>)
    ensures
        match r {
            Ok(t) => script_text(script@) == Ok::<Seq<char>, Seq<char>>(t@),
            Err(e) => script_text(script@) == Err::<Seq<char>, Seq<char>>(e.0@),
        },
{
    let ts = match lex_tokens(script) {
        Err(e) => return Err(CompileError(cat("invalid <script>: ", e.as_str()))),
        Ok(v) => v,
    };
    let rewritten = rewrite_stream(&ts);
    let mut out = String::new();
    render_stream(&rewritten, &mut out);
    assert(out@ =~= render_from(rewrite_from(toks_view(ts@), 0), 0));
    Ok(out)
}

/// Rewrite Vue authoring spellings in a script body: the stream lexed from the
/// rewritten script's spelling.
pub fn rewrite_script_sugar(script: &str) -> (r: Result<SourceTokens, CompileError>)
    ensures
        match r {
            Ok(t) => script_text(script@) matches Ok(x) && t.source() == x
                && tokens_lexed(x) == Ok::<Seq<TokV>, Seq<char>>(t.trees()),
            Err(e) => match script_text(script@) {
                Err(m) => e.0@ == m,
                Ok(x) => tokens_lexed(x) == Err::<Seq<TokV>, Seq<char>>(e.0@),
            },
        },
{
    let text = match rewrite_script_text(script) {
        Err(e) => return Err(e),
        Ok(t) => t,
    };
    match lex_source(text.as_str()) {
        Ok(ts) => Ok(ts),
        Err(e) => Err(CompileError(e)),
    }
}

} // verus!

verus! {

/// The rewritten tokens from `i` on are the tokens at `i..` each rewritten.
proof fn lemma_rewrite_index(ts: Seq<TokV>, i: int)
    requires
        0 <= i <= ts.len(),
    ensures
        rewrite_from(ts, i).len() == ts.len() - i,
        forall|k: int| 0 <= k < ts.len() - i ==> #[trigger] rewrite_from(ts, i)[k] == rewrite_tok(ts, i + k),
    decreases ts.len() - i,
{
    if i < ts.len() {
        lemma_rewrite_index(ts, i + 1);
        assert forall|k: int| 0 <= k < ts.len() - i implies #[trigger] rewrite_from(ts, i)[k] == rewrite_tok(ts, i + k) by {
            if k > 0 {
                assert(rewrite_from(ts, i)[k] == rewrite_from(ts, i + 1)[k - 1]);
            }
        }
    }
}

/// The rewrite keeps every token's place and kind: a group keeps its
/// delimiter, punctuation and literals are untouched, and an identifier stays
/// an identifier, renamed only from a Vue spelling to its core name.
pub proof fn law_rewrite_keeps_shape(ts: Seq<TokV>)
    ensures
        rewrite_from(ts, 0).len() == ts.len(),
        forall|i: int| 0 <= i < ts.len() ==> {
            let r = #[trigger] rewrite_from(ts, 0)[i];
            match ts[i] {
                TokV::Ident(id) => r matches TokV::Ident(to) && (to == id || mapped_name(id) == Some(to)),
                TokV::Group(d, inner) => r == TokV::Group(d, rewrite_from(inner, 0)),
                _ => r == ts[i],
            }
        },
{
    lemma_rewrite_index(ts, 0);
    assert forall|i: int| 0 <= i < ts.len() implies {
        let r = #[trigger] rewrite_from(ts, 0)[i];
        match ts[i] {
            TokV::Ident(id) => r matches TokV::Ident(to) && (to == id || mapped_name(id) == Some(to)),
            TokV::Group(d, inner) => r == TokV::Group(d, rewrite_from(inner, 0)),
            _ => r == ts[i],
        }
    } by {
        assert(rewrite_from(ts, 0)[i] == rewrite_tok(ts, 0 + i));
    }
}

/// A rewritten token is a `:` or a parenthesised group exactly when the
/// original is.
proof fn lemma_rewrite_tok_kind(ts: Seq<TokV>, i: int)
    requires
        0 <= i < ts.len(),
    ensures
        is_colon(rewrite_tok(ts, i)) == is_colon(ts[i]),
        (rewrite_tok(ts, i) matches TokV::Group(d, _) && d == Delim::Paren)
            == (ts[i] matches TokV::Group(d, _) && d == Delim::Paren),
{
}

/// The core names are not Vue spellings.
proof fn lemma_core_names_fixed(id: Seq<char>)
    ensures
        mapped_name(id) matches Some(to) ==> mapped_name(to) is None,
{
    reveal_strlit("ref");
    reveal_strlit("signal");
    reveal_strlit("watchEffect");
    reveal_strlit("effect");
    assert("signal"@.len() == 6 && "effect"@.len() == 6);
    assert("ref"@.len() == 3 && "watchEffect"@.len() == 11);
}

/// Rewriting twice is rewriting once: the core names the spellings map to
/// are not themselves rewritten, and a token's role (a call, a path segment)
/// does not change under the rewrite.
pub proof fn law_rewrite_idempotent(ts: Seq<TokV>)
    ensures
        rewrite_from(rewrite_from(ts, 0), 0) == rewrite_from(ts, 0),
    decreases ts,
{
    let r = rewrite_from(ts, 0);
    lemma_rewrite_index(ts, 0);
    lemma_rewrite_index(r, 0);
    assert forall|i: int| 0 <= i < r.len() implies #[trigger] rewrite_tok(r, i) == r[i] by {
        assert(r[i] == rewrite_tok(ts, 0 + i));
        if i + 1 < ts.len() {
            assert(r[i + 1] == rewrite_tok(ts, 0 + (i + 1)));
            lemma_rewrite_tok_kind(ts, i + 1);
        }
        if i >= 2 {
            assert(r[i - 1] == rewrite_tok(ts, 0 + (i - 1)));
            assert(r[i - 2] == rewrite_tok(ts, 0 + (i - 2)));
            lemma_rewrite_tok_kind(ts, i - 1);
            lemma_rewrite_tok_kind(ts, i - 2);
        }
        assert(is_call(r, i) == is_call(ts, i));
        assert(is_path_segment(r, i) == is_path_segment(ts, i));
        match ts[i] {
            TokV::Ident(id) => lemma_core_names_fixed(id),
            TokV::Group(d, inner) => {
                assert(decreases_to!(ts => ts[i]));
                assert(decreases_to!(ts[i] => ts[i]->Group_1));
                law_rewrite_idempotent(inner);
            },
            _ => {},
        }
    }
    assert(rewrite_from(r, 0) =~= r) by {
        assert forall|i: int| 0 <= i < r.len() implies rewrite_from(r, 0)[i] == r[i] by {
            assert(rewrite_from(r, 0)[i] == rewrite_tok(r, 0 + i));
        }
    }
}

} // verus!
