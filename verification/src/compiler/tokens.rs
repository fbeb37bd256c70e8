//! The Rust-syntax services the code generator takes from `proc-macro2` and
//! `syn`: literal spelling, expression and identifier parsing, and lexing.
//!
//! Generated code is assembled as source text. Every piece that comes from the
//! template's Rust fragments is first parsed here and re-emitted in the
//! canonical spelling of its tokens, so the text lexes to the same tokens the
//! fragment had.
//!
//! `proc-macro2` runs either on the compiler's implementation (inside a
//! procedural macro) or on its own fallback implementation, and the two may
//! spell and lex differently. Every service here whose result the contracts
//! name runs with the fallback forced for the duration of the call
//! (`proc_macro2::fallback::force`, then `unforce`), so that result depends on
//! its input alone. That includes the lexing of generated code into the
//! stream handed back: it is a fallback stream, whose trees the contracts
//! name, and proc-macro2 re-lexes such a stream from its spelling when it is
//! handed to the compiler.
use vstd::prelude::*;
use proc_macro2::TokenStream;
use std::str::FromStr;
use crate::compiler::script::{lex_stream, stream_trees, tokens_lexed, TokV};
use syn::ext::IdentExt;
use syn::parse::Parser;
use crate::text::{cat3, starts_with, str_eq, str_starts_with};

verus! {

#[verifier::external_type_specification]
#[verifier::external_body]
pub struct ExTokenStream(TokenStream);

/// The spelling of `proc_macro2::Literal::string(s)` in proc-macro2's fallback
/// implementation: `s` as a Rust string literal, quoted and escaped.
pub uninterp spec fn str_lit(s: Seq<char>) -> Seq<char>;

/// A `usize`-suffixed integer literal: `n` in decimal, then `usize`.
pub open spec fn usize_lit(n: usize) -> Seq<char> {
    crate::compiler::items::dec(n as nat) + "usize"@
}

/// A `u16`-suffixed integer literal: `n` in decimal, then `u16`.
pub open spec fn u16_lit(n: u16) -> Seq<char> {
    crate::compiler::items::dec(n as nat) + "u16"@
}

/// `syn::parse_str::<syn::Expr>(src)` on proc-macro2's fallback: the parsed
/// expression's tokens, spelled as the fallback `TokenStream`'s `Display`
/// spells them, or syn's error message.
pub uninterp spec fn expr_parsed(src: Seq<char>) -> Result<Seq<char>, Seq<char>>;

/// `syn::parse_str::<syn::ExprArray>(src)` on proc-macro2's fallback: the
/// spelling of each element expression's tokens, in order, or syn's error
/// message.
pub uninterp spec fn array_parsed(src: Seq<char>) -> Result<Seq<Seq<char>>, Seq<char>>;

/// `syn::parse_str::<syn::Ident>(src)` on proc-macro2's fallback: the
/// identifier's spelling, or syn's error message when `src` is not a single
/// non-keyword identifier.
pub uninterp spec fn ident_parsed(src: Seq<char>) -> Result<Seq<char>, Seq<char>>;

/// `syn::parse_str::<syn::parse::Nothing>(src)` on proc-macro2's fallback:
/// `None` when it parses, else syn's error message.
pub uninterp spec fn nothing_parsed(src: Seq<char>) -> Option<Seq<char>>;

/// `Ident::parse_any` run over all of `src` on proc-macro2's fallback: the
/// identifier's spelling (keywords included), or `None` when `src` is not
/// exactly one identifier.
pub uninterp spec fn any_ident(src: Seq<char>) -> Option<Seq<char>>;

/// `src.parse::<proc_macro2::TokenStream>()` on proc-macro2's fallback: the
/// stream's `Display` spelling, or the lexer's error message.
pub uninterp spec fn lexed(src: Seq<char>) -> Result<Seq<char>, Seq<char>>;

/// The `Debug` rendering of a string (`format!("{:?}", s)`): quoted, with
/// `char::escape_debug` escapes.
pub uninterp spec fn str_debug(s: Seq<char>) -> Seq<char>;

/// Spells `s` as a Rust string literal with `proc_macro2::Literal::string`,
/// with proc-macro2's fallback implementation forced for the call. The
/// escaping rules are the fallback's; the contract only names the result.
#[verifier::external_body]
pub(crate) fn string_literal(s: &str) -> (r: String)
    ensures
        r@ == str_lit(s@),
{
    proc_macro2::fallback::force();
    let r = proc_macro2::Literal::string(s).to_string();
    proc_macro2::fallback::unforce();
    r
}

/// Spells `n` as a `usize`-suffixed literal.
pub(crate) fn usize_literal(n: usize) -> (r: String)
    ensures
        r@ == usize_lit(n),
{
    let mut s = crate::compiler::items::decimal(n);
    s.append("usize");
    s
}

/// Spells `n` as a `u16`-suffixed literal.
pub(crate) fn u16_literal(n: u16) -> (r: String)
    ensures
        r@ == u16_lit(n),
{
    let mut s = crate::compiler::items::decimal(n as usize);
    s.append("u16");
    s
}

/// Parses `src` as one Rust expression with `syn::parse_str::<syn::Expr>`,
/// with proc-macro2's fallback implementation forced for the call. On success
/// the expression's tokens are re-spelled with `quote::ToTokens` and
/// `Display`; on failure syn's error is rendered with `Display`. Which sources
/// parse, and the exact spellings, are syn's and the fallback's: the contract
/// names them.
#[verifier::external_body]
pub(crate) fn parse_expr_tokens(src: &str) -> (r: Result<String, String>)
    ensures
        match r {
            Ok(t) => expr_parsed(src@) == Ok::<Seq<char>, Seq<char>>(t@),
            Err(e) => expr_parsed(src@) == Err::<Seq<char>, Seq<char>>(e@),
        },
{
    proc_macro2::fallback::force();
    let r = match syn::parse_str::<syn::Expr>(src) {
        Ok(e) => Ok(quote::ToTokens::to_token_stream(&e).to_string()),
        Err(e) => Err(e.to_string()),
    };
    proc_macro2::fallback::unforce();
    r
}

/// Parses `src` as an array expression `[a, b, ..]` with
/// `syn::parse_str::<syn::ExprArray>` (fallback forced for the call), spelling
/// each element's tokens as `parse_expr_tokens` does; on failure syn's error
/// message.
#[verifier::external_body]
pub(crate) fn parse_array_elems(src: &str) -> (r: Result<Vec<String>, String>)
    ensures
        match r {
            Ok(v) => array_parsed(src@) == Ok::<Seq<Seq<char>>, Seq<char>>(v@.map_values(|x: String| x@)),
            Err(e) => array_parsed(src@) == Err::<Seq<Seq<char>>, Seq<char>>(e@),
        },
{
    proc_macro2::fallback::force();
    let r = match syn::parse_str::<syn::ExprArray>(src) {
        Ok(a) => Ok(a.elems.iter().map(|x| quote::ToTokens::to_token_stream(x).to_string()).collect()),
        Err(e) => Err(e.to_string()),
    };
    proc_macro2::fallback::unforce();
    r
}

/// Parses `src` as one identifier with `syn::parse_str::<syn::Ident>`, which
/// rejects keywords (fallback forced for the call): the spelling of the
/// identifier, or syn's error rendered with `Display`.
#[verifier::external_body]
pub(crate) fn parse_ident(src: &str) -> (r: Result<String, String>)
    ensures
        match r {
            Ok(t) => ident_parsed(src@) == Ok::<Seq<char>, Seq<char>>(t@),
            Err(e) => ident_parsed(src@) == Err::<Seq<char>, Seq<char>>(e@),
        },
{
    proc_macro2::fallback::force();
    let r = match syn::parse_str::<syn::Ident>(src) {
        Ok(i) => Ok(i.to_string()),
        Err(e) => Err(e.to_string()),
    };
    proc_macro2::fallback::unforce();
    r
}

/// Parses `src` as nothing at all with `syn::parse_str::<syn::parse::Nothing>`
/// (fallback forced for the call): `None` when `src` holds no tokens, else
/// syn's error for the tokens left over, rendered with `Display`.
#[verifier::external_body]
pub(crate) fn parse_nothing(src: &str) -> (r: Option<String>)
    ensures
        nothing_parsed(src@) == match r {
            Some(e) => Some(e@),
            None => None::<Seq<char>>,
        },
{
    proc_macro2::fallback::force();
    let r = match syn::parse_str::<syn::parse::Nothing>(src) {
        Ok(_) => None,
        Err(e) => Some(e.to_string()),
    };
    proc_macro2::fallback::unforce();
    r
}

/// Parses all of `src` as one identifier with `syn::Ident::parse_any`, which
/// accepts keywords too (fallback forced for the call); the spelling of the
/// identifier when it parses.
#[verifier::external_body]
pub(crate) fn parse_any_ident(src: &str) -> (r: Option<String>)
    ensures
        match r {
            Some(t) => any_ident(src@) == Some(t@),
            None => any_ident(src@) is None,
        },
{
    proc_macro2::fallback::force();
    let r = syn::Ident::parse_any.parse_str(src).ok().map(|i| i.to_string());
    proc_macro2::fallback::unforce();
    r
}

/// Lexes `src` with `proc_macro2::TokenStream::from_str` on the fallback
/// implementation and spells the stream with its `Display`, or renders the
/// lexer's error.
#[verifier::external_body]
pub(crate) fn lex_text(src: &str) -> (r: Result<String, String>)
    ensures
        match r {
            Ok(t) => lexed(src@) == Ok::<Seq<char>, Seq<char>>(t@),
            Err(e) => lexed(src@) == Err::<Seq<char>, Seq<char>>(e@),
        },
{
    proc_macro2::fallback::force();
    let r = match TokenStream::from_str(src) {
        Ok(ts) => Ok(ts.to_string()),
        Err(e) => Err(e.to_string()),
    };
    proc_macro2::fallback::unforce();
    r
}

/// A token stream together with the source text it was lexed from.
pub struct SourceTokens {
    stream: TokenStream,
    source: Ghost<Seq<char>>,
}

impl SourceTokens {
    /// The text the stream was lexed from.
    pub closed spec fn source(&self) -> Seq<char> {
        self.source@
    }

    /// The token trees of the stream.
    pub closed spec fn trees(&self) -> Seq<TokV> {
        stream_trees(self.stream)
    }

    /// The stream.
    pub fn stream(&self) -> (r: &TokenStream)
        ensures
            stream_trees(*r) == self.trees(),
    {
        &self.stream
    }

    /// The stream, taken out.
    pub fn into_stream(self) -> (r: TokenStream)
        ensures
            stream_trees(r) == self.trees(),
    {
        self.stream
    }
}

/// Lex `src` into a token stream that remembers `src` as its source: on
/// success the stream holds the trees `src` lexes to, else the lexer's
/// message.
pub fn lex_source(src: &str) -> (r: Result<SourceTokens, String>)
    ensures
        match r {
            Ok(t) => t.source() == src@ && tokens_lexed(src@) == Ok::<Seq<TokV>, Seq<char>>(t.trees()),
            Err(e) => tokens_lexed(src@) == Err::<Seq<TokV>, Seq<char>>(e@),
        },
{
    match lex_stream(src) {
        Ok(stream) => Ok(SourceTokens { stream, source: Ghost(src@) }),
        Err(e) => Err(e),
    }
}

/// Renders `s` with its `Debug` formatting (`format!("{:?}", s)`); the
/// escaping rules are std's, so the contract only names the result.
#[verifier::external_body]
pub(crate) fn debug_str(s: &str) -> (r: String)
    ensures
        r@ == str_debug(s@),
{
    format!("{:?}", s)
}

/// `proc_macro2::Ident::new` accepts `s`: it spells exactly one identifier
/// (keywords included) and is not a raw identifier `r#..`. On any other
/// string `Ident::new` panics.
pub open spec fn ident_ok(s: Seq<char>) -> bool {
    any_ident(s) == Some(s) && !starts_with(s, "r#"@)
}

/// Whether `s` is a name that `proc_macro2::Ident::new` accepts.
pub fn valid_ident(s: &str) -> (r: bool)
    ensures
        r == ident_ok(s@),
{
    match parse_any_ident(s) {
        None => false,
        Some(t) => str_eq(t.as_str(), s) && !str_starts_with(s, "r#"),
    }
}

/// A template Rust expression, re-spelled from its parsed tokens, or the
/// compile error for one that does not parse.
pub open spec fn expr_code(src: Seq<char>) -> Result<Seq<char>, Seq<char>> {
    match expr_parsed(src) {
        Ok(t) => Ok(t),
        Err(e) => Err("invalid expression `"@ + src + "`: "@ + e),
    }
}

/// Parse a template Rust expression: its tokens' spelling, or the message
/// "invalid expression `src`: <syn's error>".
pub fn parse_expr(src: &str) -> (r: Result<String, String>)
    ensures
        match r {
            Ok(t) => expr_code(src@) == Ok::<Seq<char>, Seq<char>>(t@),
            Err(e) => expr_code(src@) == Err::<Seq<char>, Seq<char>>(e@),
        },
{
    match parse_expr_tokens(src) {
        Ok(t) => Ok(t),
        Err(e) => {
            let mut m = cat3("invalid expression `", src, "`: ");
            m.append(e.as_str());
            Err(m)
        },
    }
}

} // verus!
