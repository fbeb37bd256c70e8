//! Compiles templates into `El`-builder Rust code.
//!
//! The generated code references `__backend` (the backend instance) and the
//! user's reactive bindings through the Rust expressions written inside
//! `{{ }}`, `:attr` and `@event`.
//!
//! `proc_macro2::Ident::new` panics on a name that is not an identifier, and
//! the lowering makes identifiers out of template names (component tags, prop
//! and slot names). The `compile_*` functions therefore require a template on
//! which that does not happen; their `*_checked` forms take any template and
//! answer `None` for those.
use vstd::prelude::*;
use crate::compiler::codegen::{generate, opt_view, slots_of, template_code, GenCtx, GenError, GenErrorV, Slots};
use crate::compiler::directives::pairs_view;
use crate::compiler::tokens::{lex_source, SourceTokens};
use crate::compiler::script::{tokens_lexed, TokV};
use crate::sfc::CompileError;

verus! {

/// The lowering stops at a name `Ident::new` refuses.
pub open spec fn hits_invalid_ident(out: Result<(Seq<char>, Slots), GenErrorV>) -> bool {
    out matches Err(GenErrorV::InvalidIdent(_))
}

/// What compiling handed back fits the lowering `out`: the stream the
/// generated code lexes to, the compile error's message, or (when the
/// generated code does not lex) the lexer's message.
pub open spec fn compiled_as(out: Result<(Seq<char>, Slots), GenErrorV>, r: Result<SourceTokens, CompileError>) -> bool {
    match r {
        Ok(t) => out matches Ok((text, _)) && t.source() == text
            && tokens_lexed(text) == Ok::<Seq<TokV>, Seq<char>>(t.trees()),
        Err(e) => match out {
            Ok((text, _)) => tokens_lexed(text) == Err::<Seq<TokV>, Seq<char>>(e.0@),
            Err(GenErrorV::Message(m)) => e.0@ == m,
            Err(GenErrorV::InvalidIdent(_)) => false,
        },
    }
}

/// The context of a plain or scoped template without scoped-slot payloads.
pub open spec fn plain_ctx(scope: Option<Seq<char>>) -> GenCtx {
    GenCtx { scope, payloads: seq![] }
}

/// The result of compiling a component's `<template>`.
pub struct CompiledComponent {
    /// The `El`-builder code for the template.
    pub tokens: SourceTokens,
    /// Every `<slot>` the template uses, as `(name, scoped)` pairs. The caller
    /// generates the component's `NameSlots` struct from this.
    pub slots: Vec<(String, bool)>,
}

/// Lex generated code into a token stream, or the error for generation that
/// stopped.
fn finish(out: Result<(String, Vec<(String, bool)>), GenError>) -> (r: Result<(SourceTokens, Vec<(String, bool)>), CompileError>)
    requires
        !(out matches Err(GenError::InvalidIdent(_))),
    ensures
        match out {
            Ok((t, s)) => match r {
                Ok((ts, s2)) => ts.source() == t@ && s2@ == s@
                    && tokens_lexed(t@) == Ok::<Seq<TokV>, Seq<char>>(ts.trees()),
                Err(e) => tokens_lexed(t@) == Err::<Seq<TokV>, Seq<char>>(e.0@),
            },
            Err(GenError::Message(m)) => r matches Err(e) && e.0@ == m@,
            Err(GenError::InvalidIdent(_)) => false,
        },
{
    match out {
        Err(GenError::Message(m)) => Err(CompileError(m)),
        Err(GenError::InvalidIdent(s)) => Err(CompileError(s)),
        Ok((t, slots)) => match lex_source(t.as_str()) {
            Err(e) => Err(CompileError(e)),
            Ok(ts) => Ok((ts, slots)),
        },
    }
}

/// Compile a template string into `El`-builder Rust code: the stream lexed
/// from the generated code.
pub fn compile_template(template: &str) -> (r: Result<SourceTokens, CompileError>)
    requires
        !hits_invalid_ident(template_code(template@, plain_ctx(None))),
    ensures
        compiled_as(template_code(template@, plain_ctx(None)), r),
{
    let payloads: Vec<(String, String)> = Vec::new();
    assert(pairs_view(payloads@) =~= Seq::<(Seq<char>, Seq<char>)>::empty());
    let out = generate(template, None, payloads);
    match finish(out) {
        Ok((ts, _)) => Ok(ts),
        Err(e) => Err(e),
    }
}

/// Like [`compile_template`], but tags every element with a
/// `data-v-<scope_id>` marker attribute so scoped CSS can target it.
pub fn compile_template_scoped(template: &str, scope_id: &str) -> (r: Result<SourceTokens, CompileError>)
    requires
        !hits_invalid_ident(template_code(template@, plain_ctx(Some(scope_id@)))),
    ensures
        compiled_as(template_code(template@, plain_ctx(Some(scope_id@))), r),
{
    let payloads: Vec<(String, String)> = Vec::new();
    assert(pairs_view(payloads@) =~= Seq::<(Seq<char>, Seq<char>)>::empty());
    let out = generate(template, Some(scope_id), payloads);
    match finish(out) {
        Ok((ts, _)) => Ok(ts),
        Err(e) => Err(e),
    }
}

/// What compiling a component's template handed back fits the lowering
/// `out`: the stream lexed from the generated code with the `<slot>`s it uses,
/// or the error as for [`compiled_as`].
pub open spec fn component_compiled_as(out: Result<(Seq<char>, Slots), GenErrorV>, r: Result<CompiledComponent, CompileError>) -> bool {
    match r {
        Ok(c) => out matches Ok((text, s)) && c.tokens.source() == text && slots_of(c.slots@) == s
            && tokens_lexed(text) == Ok::<Seq<TokV>, Seq<char>>(c.tokens.trees()),
        Err(e) => match out {
            Ok((text, _)) => tokens_lexed(text) == Err::<Seq<TokV>, Seq<char>>(e.0@),
            Err(GenErrorV::Message(m)) => e.0@ == m,
            Err(GenErrorV::InvalidIdent(_)) => false,
        },
    }
}

/// Compile a component's `<template>`, given an optional scoped-CSS marker id
/// and the payload type (as Rust source) of each scoped slot, keyed by slot
/// name. A `<slot :field="x">` builds the named payload struct.
pub fn compile_component_template(
    template: &str,
    scope_id: Option<&str>,
    slot_payloads: Vec<(String, String)>,
) -> (r: Result<CompiledComponent, CompileError>)
    requires
        !hits_invalid_ident(
            template_code(template@, GenCtx { scope: opt_view(scope_id), payloads: pairs_view(slot_payloads@) }),
        ),
    ensures
        component_compiled_as(
            template_code(template@, GenCtx { scope: opt_view(scope_id), payloads: pairs_view(slot_payloads@) }),
            r,
        ),
{
    let out = generate(template, scope_id, slot_payloads);
    match finish(out) {
        Ok((tokens, slots)) => Ok(CompiledComponent { tokens, slots }),
        Err(e) => Err(e),
    }
}

/// [`compile_template`] for any template: `None` where lowering would reach a
/// name that `Ident::new` refuses.
pub fn compile_template_checked(template: &str) -> (r: Option<Result<SourceTokens, CompileError>>)
    ensures
        r is None <==> hits_invalid_ident(template_code(template@, plain_ctx(None))),
        r matches Some(c) ==> compiled_as(template_code(template@, plain_ctx(None)), c),
{
    let payloads: Vec<(String, String)> = Vec::new();
    assert(pairs_view(payloads@) =~= Seq::<(Seq<char>, Seq<char>)>::empty());
    match generate(template, None, payloads) {
        Err(GenError::InvalidIdent(_)) => None,
        _ => Some(compile_template(template)),
    }
}

/// [`compile_template_scoped`] for any template: `None` where lowering would
/// reach a name that `Ident::new` refuses.
pub fn compile_template_scoped_checked(template: &str, scope_id: &str) -> (r: Option<Result<SourceTokens, CompileError>>)
    ensures
        r is None <==> hits_invalid_ident(template_code(template@, plain_ctx(Some(scope_id@)))),
        r matches Some(c) ==> compiled_as(template_code(template@, plain_ctx(Some(scope_id@))), c),
{
    let payloads: Vec<(String, String)> = Vec::new();
    assert(pairs_view(payloads@) =~= Seq::<(Seq<char>, Seq<char>)>::empty());
    match generate(template, Some(scope_id), payloads) {
        Err(GenError::InvalidIdent(_)) => None,
        _ => Some(compile_template_scoped(template, scope_id)),
    }
}

/// A copy of the slot payload list.
fn copy_payloads(v: &Vec<(String, String)>) -> (r: Vec<(String, String)>)
    ensures
        pairs_view(r@) == pairs_view(v@),
{
    let mut r: Vec<(String, String)> = Vec::new();
    let mut i: usize = 0;
    while i < v.len()
        invariant
            i <= v@.len(),
            pairs_view(r@) == pairs_view(v@.take(i as int)),
        decreases v@.len() - i,
    {
        let (a, b) = &v[i];
        let ghost before = r@;
        r.push((a.clone(), b.clone()));
        assert(v@.take(i + 1) =~= v@.take(i as int).push(v@[i as int]));
        assert(pairs_view(r@) =~= pairs_view(before).push((a@, b@)));
        assert(pairs_view(v@.take(i + 1)) =~= pairs_view(v@.take(i as int)).push((a@, b@)));
        i += 1;
    }
    assert(v@.take(v@.len() as int) =~= v@);
    r
}

/// [`compile_component_template`] for any template: `None` where lowering
/// would reach a name that `Ident::new` refuses.
pub fn compile_component_template_checked(
    template: &str,
    scope_id: Option<&str>,
    slot_payloads: Vec<(String, String)>,
) -> (r: Option<Result<CompiledComponent, CompileError>>)
    ensures
        r is None <==> hits_invalid_ident(
            template_code(template@, GenCtx { scope: opt_view(scope_id), payloads: pairs_view(slot_payloads@) }),
        ),
        r matches Some(c) ==> component_compiled_as(
            template_code(template@, GenCtx { scope: opt_view(scope_id), payloads: pairs_view(slot_payloads@) }),
            c,
        ),
{
    match generate(template, scope_id, copy_payloads(&slot_payloads)) {
        Err(GenError::InvalidIdent(_)) => None,
        _ => Some(compile_component_template(template, scope_id, slot_payloads)),
    }
}

} // verus!
