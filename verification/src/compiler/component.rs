//! Whole-component code generation: from a split `.vrs` source and its parsed
//! `<script>` statements, the `pub fn Name<B: Backend>` render function plus
//! its props builder, slots struct, hoisted items, and scoped-style const.
use vstd::prelude::*;
use crate::compiler::codegen::{generate, slots_of, template_code, GenCtx, GenError, GenErrorV, Slots};
use crate::compiler::compile::hits_invalid_ident;
use crate::compiler::items::{
    check_prop_fields, gen_props_builder, gen_slots_struct, pairs_of, props_builder_code, props_check,
    slot_fields, slot_fields_of, slots_struct_code, ScriptItem, StructDecl,
};
use crate::compiler::tokens::{lex_source, str_lit, string_literal, valid_ident, ident_ok, SourceTokens};
use crate::sfc::{opt_view, spec_split_sfc, split_sfc, CompileError, Sfc};
use crate::compiler::script::{rewrite_script_text, script_text, tokens_lexed};
use crate::compiler::script_parse::{parse_script_items, script_items_parsed};
use crate::style::{scope_css, scope_id, spec_scope_css, spec_scope_id};
use crate::text::{cat, cat3, str_eq};

verus! {

/// `str::to_uppercase(s)`.
pub uninterp spec fn str_upper(s: Seq<char>) -> Seq<char>;

/// Uppercases `s` with `str::to_uppercase`; the Unicode case tables are std's,
/// so the contract only names the result.
#[verifier::external_body]
fn to_upper(s: &str) -> (r: String)
    ensures
        r@ == str_upper(s@),
{
    s.to_uppercase()
}

/// A component's script statements sorted out: the `use` items and other
/// structs (hoisted to module level), its `NameProps` and `NameSlots`
/// declarations (the last of each), and the remaining body statements.
pub struct Parts {
    pub uses: Seq<Seq<char>>,
    pub structs: Seq<Seq<char>>,
    pub props: Option<StructDecl>,
    pub slots: Option<StructDecl>,
    pub body: Seq<Seq<char>>,
}

/// The script statements from `k` on sorted into `acc`.
pub open spec fn parts_from(items: Seq<ScriptItem>, props_name: Seq<char>, slots_name: Seq<char>, k: int, acc: Parts) -> Parts
    decreases items.len() - k,
{
    if k < 0 || k >= items.len() {
        acc
    } else {
        let next = match items[k] {
            ScriptItem::Use(t) => Parts { uses: acc.uses.push(t@), ..acc },
            ScriptItem::Struct(s) => if s.name@ == props_name {
                Parts { props: Some(s), ..acc }
            } else if s.name@ == slots_name {
                Parts { slots: Some(s), ..acc }
            } else {
                Parts { structs: acc.structs.push(s.text@), ..acc }
            },
            ScriptItem::Other(t) => Parts { body: acc.body.push(t@), ..acc },
        };
        parts_from(items, props_name, slots_name, k + 1, next)
    }
}

/// The script statements of component `name` sorted out.
pub open spec fn parts_of(items: Seq<ScriptItem>, name: Seq<char>) -> Parts {
    parts_from(
        items,
        name + "Props"@,
        name + "Slots"@,
        0,
        Parts { uses: seq![], structs: seq![], props: None, slots: None, body: seq![] },
    )
}

/// The payload type of the last of `ps` named `name`.
pub open spec fn last_payload(ps: Seq<(Seq<char>, Seq<char>)>, name: Seq<char>, k: int) -> Option<Seq<char>>
    decreases k,
{
    if k <= 0 || k > ps.len() {
        None
    } else if ps[k - 1].0 == name {
        Some(ps[k - 1].1)
    } else {
        last_payload(ps, name, k - 1)
    }
}

/// The `(field, payload)` definitions of the used slots from `k` on: a scoped
/// slot takes its declared payload type, a plain slot `()`.
pub open spec fn slot_defs(used: Slots, scoped: Seq<(Seq<char>, Seq<char>)>, slots_name: Seq<char>, k: int, acc: Seq<(Seq<char>, Seq<char>)>) -> Result<
    Seq<(Seq<char>, Seq<char>)>,
    Seq<char>,
>
    decreases used.len() - k,
{
    if k < 0 || k >= used.len() {
        Ok(acc)
    } else {
        let (slot, is_scoped) = used[k];
        if is_scoped {
            match last_payload(scoped, slot, scoped.len() as int) {
                None => Err("scoped slot `"@ + slot + "` needs a `"@ + slot + ": _` field in the component's "@ + slots_name
                    + " struct"@),
                Some(p) => slot_defs(used, scoped, slots_name, k + 1, acc.push((slot, p))),
            }
        } else {
            slot_defs(used, scoped, slots_name, k + 1, acc.push((slot, "()"@)))
        }
    }
}

/// The spellings from `k` on, each followed by a space.
pub open spec fn spaced(items: Seq<Seq<char>>, k: int) -> Seq<char>
    decreases items.len() - k,
{
    if k < 0 || k >= items.len() {
        Seq::<char>::empty()
    } else {
        items[k] + " "@ + spaced(items, k + 1)
    }
}

/// The render function `pub fn Name<B: Backend>(__backend: B, [props,] __slots) -> B::Node`.
pub open spec fn render_fn_text(name: Seq<char>, props_param: Seq<char>, slots_param: Seq<char>, rerun: Seq<char>, body: Seq<char>, template: Seq<char>) -> Seq<char> {
    "#[allow(non_snake_case)] pub fn "@ + name + "<B: ::vue_rs_dom::Backend>(__backend: B "@ + props_param + " "@
        + slots_param + " ) -> B::Node { "@ + rerun
        + " use ::vue_rs_dom::El; ::vue_rs_reactive::run_in_child_scope(move || { "@ + body + template + " }) }"@
}

/// The scoped-style constant `pub const NAME_STYLE: &str = "..";`, given its name.
pub open spec fn style_const_text(const_name: Seq<char>, scoped_css: Seq<char>) -> Seq<char> {
    "pub const "@ + const_name + ": &str = "@ + str_lit(scoped_css) + ";"@
}

/// The rebuild trigger `const _: &[u8] = include_bytes!("..");`.
pub open spec fn rerun_text(rerun: Option<Seq<char>>) -> Seq<char> {
    match rerun {
        Some(p) => "const _: &[u8] = include_bytes!("@ + str_lit(p) + ");"@,
        None => Seq::<char>::empty(),
    }
}

/// The whole component: hoisted items, the props builder, the slots struct,
/// the scoped-style constant and the render function; or why it cannot be
/// generated.
pub open spec fn component_code(
    name: Seq<char>,
    template: Seq<char>,
    style: Option<Seq<char>>,
    items: Seq<ScriptItem>,
    scope_seed: Seq<char>,
    rerun: Option<Seq<char>>,
) -> Result<Seq<char>, GenErrorV> {
    let p = parts_of(items, name);
    let checked = match p.props {
        Some(ps) => props_check(ps),
        None => Ok(()),
    };
    match checked {
        Err(m) => Err(GenErrorV::Message(m)),
        Ok(()) => {
            let scoped = match p.slots {
                Some(s) => slot_fields_of(s),
                None => seq![],
            };
            let scope = match style {
                Some(_) => Some(spec_scope_id(scope_seed)),
                None => None,
            };
            match template_code(template, GenCtx { scope, payloads: scoped }) {
                Err(e) => Err(e),
                Ok((tmpl, used)) => match slot_defs(used, scoped, name + "Slots"@, 0, seq![]) {
                    Err(m) => Err(GenErrorV::Message(m)),
                    Ok(defs) => {
                        let (sdef, sparam) = slots_struct_code(name + "Slots"@, defs);
                        let props_defs = match p.props {
                            Some(ps) => props_builder_code(ps),
                            None => Ok(Seq::<char>::empty()),
                        };
                        match props_defs {
                            Err(m) => Err(GenErrorV::Message(m)),
                            Ok(pd) => {
                                let const_name = str_upper(name + "_STYLE"@);
                                let style_const = match style {
                                    Some(css) => if ident_ok(const_name) {
                                        Ok(style_const_text(const_name, spec_scope_css(css, spec_scope_id(scope_seed))))
                                    } else {
                                        Err(GenErrorV::InvalidIdent(const_name))
                                    },
                                    None => Ok(Seq::<char>::empty()),
                                };
                                match style_const {
                                    Err(e) => Err(e),
                                    Ok(sc) => {
                                        let props_param = match p.props {
                                            Some(ps) => ", props: "@ + ps.name@,
                                            None => Seq::<char>::empty(),
                                        };
                                        Ok(spaced(p.uses, 0) + spaced(p.structs, 0) + pd + " "@ + sdef + " "@ + sc + " "@
                                            + render_fn_text(
                                            name,
                                            props_param,
                                            sparam,
                                            rerun_text(rerun),
                                            spaced(p.body, 0),
                                            tmpl,
                                        ))
                                    },
                                }
                            },
                        }
                    },
                },
            }
        },
    }
}

} // verus!

verus! {

/// The script statements of component `name`, sorted out.
fn sort_parts<'a>(items: &'a Vec<ScriptItem>, name: &str) -> (r: (
    Vec<String>,
    Vec<String>,
    Option<&'a StructDecl>,
    Option<&'a StructDecl>,
    Vec<String>,
))
    ensures
        ({
            let p = parts_of(items@, name@);
            &&& crate::text::string_views(r.0@) == p.uses
            &&& crate::text::string_views(r.1@) == p.structs
            &&& match r.2 {
                Some(s) => p.props == Some(*s),
                None => p.props is None,
            }
            &&& match r.3 {
                Some(s) => p.slots == Some(*s),
                None => p.slots is None,
            }
            &&& crate::text::string_views(r.4@) == p.body
        }),
{
    let props_name = cat(name, "Props");
    let slots_name = cat(name, "Slots");
    let mut uses: Vec<String> = Vec::new();
    let mut structs: Vec<String> = Vec::new();
    let mut props: Option<&StructDecl> = None;
    let mut slots: Option<&StructDecl> = None;
    let mut body: Vec<String> = Vec::new();
    let ghost init = Parts { uses: seq![], structs: seq![], props: None, slots: None, body: seq![] };
    assert(crate::text::string_views(uses@) =~= Seq::<Seq<char>>::empty());
    assert(crate::text::string_views(structs@) =~= Seq::<Seq<char>>::empty());
    assert(crate::text::string_views(body@) =~= Seq::<Seq<char>>::empty());
    let mut k: usize = 0;
    while k < items.len()
        invariant
            k <= items@.len(),
            props_name@ == name@ + "Props"@,
            slots_name@ == name@ + "Slots"@,
            parts_of(items@, name@) == parts_from(
                items@,
                props_name@,
                slots_name@,
                k as int,
                Parts {
                    uses: crate::text::string_views(uses@),
                    structs: crate::text::string_views(structs@),
                    props: match props {
                        Some(s) => Some(*s),
                        None => None,
                    },
                    slots: match slots {
                        Some(s) => Some(*s),
                        None => None,
                    },
                    body: crate::text::string_views(body@),
                },
            ),
        decreases items@.len() - k,
    {
        let ghost u0 = uses@;
        let ghost s0 = structs@;
        let ghost b0 = body@;
        match &items[k] {
            ScriptItem::Use(t) => {
                uses.push(t.clone());
                assert(crate::text::string_views(uses@) =~= crate::text::string_views(u0).push(t@));
            },
            ScriptItem::Struct(s) => {
                if str_eq(s.name.as_str(), props_name.as_str()) {
                    props = Some(s);
                } else if str_eq(s.name.as_str(), slots_name.as_str()) {
                    slots = Some(s);
                } else {
                    structs.push(s.text.clone());
                    assert(crate::text::string_views(structs@) =~= crate::text::string_views(s0).push(s.text@));
                }
            },
            ScriptItem::Other(t) => {
                body.push(t.clone());
                assert(crate::text::string_views(body@) =~= crate::text::string_views(b0).push(t@));
            },
        }
        k += 1;
    }
    (uses, structs, props, slots, body)
}

/// The payload type of the last scoped slot entry named `name`.
fn last_payload_exec(ps: &Vec<(String, String)>, name: &str) -> (r: Option<String>)
    ensures
        match r {
            Some(t) => last_payload(pairs_of(ps@), name@, ps@.len() as int) == Some(t@),
            None => last_payload(pairs_of(ps@), name@, ps@.len() as int) is None,
        },
{
    let ghost pv = pairs_of(ps@);
    let mut k = ps.len();
    while k > 0
        invariant
            k <= ps@.len(),
            pv == pairs_of(ps@),
            last_payload(pv, name@, pv.len() as int) == last_payload(pv, name@, k as int),
        decreases k,
    {
        let (n, t) = &ps[k - 1];
        assert(pv[k - 1] == (n@, t@));
        if str_eq(n.as_str(), name) {
            return Some(t.clone());
        }
        k -= 1;
    }
    None
}

/// The `(field, payload)` definitions of the used slots.
fn slot_defs_exec(used: &Vec<(String, bool)>, scoped: &Vec<(String, String)>, slots_name: &str) -> (r: Result<
    Vec<(String, String)>,
    String,
>)
    ensures
        match r {
            Ok(v) => slot_defs(slots_of(used@), pairs_of(scoped@), slots_name@, 0, seq![]) == Ok::<_, Seq<char>>(
                pairs_of(v@),
            ),
            Err(e) => slot_defs(slots_of(used@), pairs_of(scoped@), slots_name@, 0, seq![]) == Err::<
                Seq<(Seq<char>, Seq<char>)>,
                _,
            >(e@),
        },
{
    let ghost uv = slots_of(used@);
    let mut acc: Vec<(String, String)> = Vec::new();
    assert(pairs_of(acc@) =~= Seq::<(Seq<char>, Seq<char>)>::empty());
    let mut k: usize = 0;
    while k < used.len()
        invariant
            k <= used@.len(),
            acc@.len() == k,
            uv == slots_of(used@),
            slot_defs(uv, pairs_of(scoped@), slots_name@, 0, seq![]) == slot_defs(
                uv,
                pairs_of(scoped@),
                slots_name@,
                k as int,
                pairs_of(acc@),
            ),
        decreases used@.len() - k,
    {
        let (slot, is_scoped) = &used[k];
        assert(uv[k as int] == (slot@, *is_scoped));
        let ghost a0 = acc@;
        if *is_scoped {
            match last_payload_exec(scoped, slot.as_str()) {
                None => {
                    let mut m = cat3("scoped slot `", slot.as_str(), "` needs a `");
                    m.append(slot.as_str());
                    m.append(": _` field in the component's ");
                    m.append(slots_name);
                    m.append(" struct");
                    return Err(m);
                },
                Some(p) => {
                    let ghost pv = p@;
                    acc.push((slot.clone(), p));
                    assert(pairs_of(acc@) =~= pairs_of(a0).push((slot@, pv)));
                },
            }
        } else {
            acc.push((slot.clone(), String::from_str("()")));
            assert(pairs_of(acc@) =~= pairs_of(a0).push((slot@, "()"@)));
        }
        k += 1;
    }
    Ok(acc)
}

/// The spellings, each followed by a space.
fn spaced_exec(items: &Vec<String>) -> (r: String)
    ensures
        r@ == spaced(crate::text::string_views(items@), 0),
{
    let ghost iv = crate::text::string_views(items@);
    let mut out = String::new();
    let mut k: usize = 0;
    while k < items.len()
        invariant
            k <= items@.len(),
            iv == crate::text::string_views(items@),
            spaced(iv, 0) == out@ + spaced(iv, k as int),
        decreases items@.len() - k,
    {
        let ghost o0 = out@;
        out.append(items[k].as_str());
        out.append(" ");
        assert(iv[k as int] == items@[k as int]@);
        assert(out@ + spaced(iv, k + 1) =~= o0 + (iv[k as int] + " "@ + spaced(iv, k + 1)));
        k += 1;
    }
    assert(out@ + Seq::<char>::empty() =~= out@);
    out
}

/// Generate a whole component as Rust source: hoisted `use` items and
/// structs, the props builder, the slots struct, the scoped-style constant
/// and the render function. `scope_seed` is hashed for the `data-v-*` scope
/// id; with a `rerun_path`, an `include_bytes!` rebuild trigger is emitted
/// inside the render function.
pub fn component_source(
    name: &str,
    sfc: &Sfc,
    items: &Vec<ScriptItem>,
    scope_seed: &str,
    rerun_path: Option<&str>,
) -> (r: Result<String, GenError>)
    ensures
        match r {
            Ok(t) => component_code(
                name@,
                sfc.template@,
                crate::compiler::codegen::opt_string_view(sfc.style),
                items@,
                scope_seed@,
                crate::compiler::codegen::opt_view(rerun_path),
            ) == Ok::<_, GenErrorV>(t@),
            Err(e) => component_code(
                name@,
                sfc.template@,
                crate::compiler::codegen::opt_string_view(sfc.style),
                items@,
                scope_seed@,
                crate::compiler::codegen::opt_view(rerun_path),
            ) == Err::<Seq<char>, _>(e@),
        },
{
    let (uses, structs, props, slots_decl, body) = sort_parts(items, name);
    match props {
        Some(ps) => match check_prop_fields(ps) {
            Err(e) => return Err(GenError::Message(e.0)),
            Ok(()) => {},
        },
        None => {},
    }
    let scoped = match slots_decl {
        Some(s) => slot_fields(s),
        None => {
            let v: Vec<(String, String)> = Vec::new();
            assert(pairs_of(v@) =~= Seq::<(Seq<char>, Seq<char>)>::empty());
            v
        },
    };
    let scope: Option<String> = match &sfc.style {
        Some(_) => Some(scope_id(scope_seed)),
        None => None,
    };
    let scope_ref: Option<&str> = match &scope {
        Some(s) => Some(s.as_str()),
        None => None,
    };
    let mut scoped_copy: Vec<(String, String)> = Vec::new();
    let mut i: usize = 0;
    while i < scoped.len()
        invariant
            i <= scoped@.len(),
            pairs_of(scoped_copy@) == pairs_of(scoped@.take(i as int)),
        decreases scoped@.len() - i,
    {
        let (a, b) = &scoped[i];
        let ghost c0 = scoped_copy@;
        scoped_copy.push((a.clone(), b.clone()));
        assert(scoped@.take(i + 1) =~= scoped@.take(i as int).push(scoped@[i as int]));
        assert(pairs_of(scoped_copy@) =~= pairs_of(c0).push((a@, b@)));
        assert(pairs_of(scoped@.take(i + 1)) =~= pairs_of(scoped@.take(i as int)).push((a@, b@)));
        i += 1;
    }
    assert(scoped@.take(scoped@.len() as int) =~= scoped@);
    assert(pairs_of(scoped_copy@) == crate::compiler::directives::pairs_view(scoped_copy@));
    let (tmpl, used) = match generate(sfc.template.as_str(), scope_ref, scoped_copy) {
        Err(e) => return Err(e),
        Ok(x) => x,
    };
    let slots_name = cat(name, "Slots");
    let defs = match slot_defs_exec(&used, &scoped, slots_name.as_str()) {
        Err(m) => return Err(GenError::Message(m)),
        Ok(d) => d,
    };
    let (sdef, sparam) = gen_slots_struct(slots_name.as_str(), &defs);
    let pd = match props {
        Some(ps) => match gen_props_builder(ps) {
            Err(m) => return Err(GenError::Message(m)),
            Ok(t) => t,
        },
        None => String::new(),
    };
    let sc = match &sfc.style {
        Some(css) => {
            let const_name = to_upper(cat(name, "_STYLE").as_str());
            if !valid_ident(const_name.as_str()) {
                return Err(GenError::InvalidIdent(const_name));
            }
            let scoped_css = match &scope {
                Some(id) => scope_css(css.as_str(), id.as_str()),
                None => String::new(),
            };
            let mut t = cat3("pub const ", const_name.as_str(), ": &str = ");
            t.append(string_literal(scoped_css.as_str()).as_str());
            t.append(";");
            t
        },
        None => String::new(),
    };
    let props_param = match props {
        Some(ps) => cat(", props: ", ps.name.as_str()),
        None => String::new(),
    };
    let rerun = match rerun_path {
        Some(p) => {
            let mut t = String::from_str("const _: &[u8] = include_bytes!(");
            t.append(string_literal(p).as_str());
            t.append(");");
            t
        },
        None => String::new(),
    };
    let mut out = spaced_exec(&uses);
    out.append(spaced_exec(&structs).as_str());
    out.append(pd.as_str());
    out.append(" ");
    out.append(sdef.as_str());
    out.append(" ");
    out.append(sc.as_str());
    out.append(" ");
    let mut f = cat3("#[allow(non_snake_case)] pub fn ", name, "<B: ::vue_rs_dom::Backend>(__backend: B ");
    f.append(props_param.as_str());
    f.append(" ");
    f.append(sparam.as_str());
    f.append(" ) -> B::Node { ");
    f.append(rerun.as_str());
    f.append(" use ::vue_rs_dom::El; ::vue_rs_reactive::run_in_child_scope(move || { ");
    f.append(spaced_exec(&body).as_str());
    f.append(tmpl.as_str());
    f.append(" }) }");
    out.append(f.as_str());
    Ok(out)
}

} // verus!

verus! {

/// The component's code for a split source and its parsed script statements.
pub open spec fn component_of(name: Seq<char>, sfc: Sfc, items: Seq<ScriptItem>, scope_seed: Seq<char>, rerun: Option<Seq<char>>) -> Result<
    Seq<char>,
    GenErrorV,
> {
    component_code(name, sfc.template@, crate::compiler::codegen::opt_string_view(sfc.style), items, scope_seed, rerun)
}

/// The generation stops at a name `Ident::new` refuses.
pub open spec fn component_hits_invalid_ident(out: Result<Seq<char>, GenErrorV>) -> bool {
    out matches Err(GenErrorV::InvalidIdent(_))
}

/// What compiling a component handed back fits its code `out`: the stream the
/// code lexes to, the compile error's message, or (when the code does not lex)
/// the lexer's message.
pub open spec fn component_compiled(out: Result<Seq<char>, GenErrorV>, r: Result<SourceTokens, CompileError>) -> bool {
    match r {
        Ok(t) => out matches Ok(text) && t.source() == text
            && crate::compiler::script::tokens_lexed(text) == Ok::<Seq<crate::compiler::script::TokV>, Seq<char>>(t.trees()),
        Err(e) => match out {
            Ok(text) => crate::compiler::script::tokens_lexed(text) == Err::<Seq<crate::compiler::script::TokV>, Seq<char>>(e.0@),
            Err(GenErrorV::Message(m)) => e.0@ == m,
            Err(GenErrorV::InvalidIdent(_)) => false,
        },
    }
}

/// Compile a component from its split `.vrs` source and the statements of its
/// (already rewritten and parsed) `<script>` into the render function and its
/// companion items: the stream lexed from the component's code.
pub fn compile_component_parts(
    name: &str,
    sfc: &Sfc,
    items: &Vec<ScriptItem>,
    scope_seed: &str,
    rerun_path: Option<&str>,
) -> (r: Result<SourceTokens, CompileError>)
    requires
        !component_hits_invalid_ident(
            component_of(name@, *sfc, items@, scope_seed@, crate::compiler::codegen::opt_view(rerun_path)),
        ),
    ensures
        component_compiled(
            component_of(name@, *sfc, items@, scope_seed@, crate::compiler::codegen::opt_view(rerun_path)),
            r,
        ),
{
    match component_source(name, sfc, items, scope_seed, rerun_path) {
        Err(GenError::Message(m)) => Err(CompileError(m)),
        Err(GenError::InvalidIdent(s)) => Err(CompileError(s)),
        Ok(t) => match lex_source(t.as_str()) {
            Ok(ts) => Ok(ts),
            Err(e) => Err(CompileError(e)),
        },
    }
}

/// [`compile_component_parts`] for any input: `None` where generation would
/// reach a name that `Ident::new` refuses.
pub fn compile_component_parts_checked(
    name: &str,
    sfc: &Sfc,
    items: &Vec<ScriptItem>,
    scope_seed: &str,
    rerun_path: Option<&str>,
) -> (r: Option<Result<SourceTokens, CompileError>>)
    ensures
        r is None <==> component_hits_invalid_ident(
            component_of(name@, *sfc, items@, scope_seed@, crate::compiler::codegen::opt_view(rerun_path)),
        ),
        r matches Some(c) ==> component_compiled(
            component_of(name@, *sfc, items@, scope_seed@, crate::compiler::codegen::opt_view(rerun_path)),
            c,
        ),
{
    match component_source(name, sfc, items, scope_seed, rerun_path) {
        Err(GenError::InvalidIdent(_)) => None,
        _ => Some(compile_component_parts(name, sfc, items, scope_seed, rerun_path)),
    }
}

/// The statements of a component's `<script>` block: none for an absent or
/// empty block; else the rewritten script's statements as syn reads them, or
/// why the script does not rewrite, lex or parse.
pub open spec fn script_items_of(script: Option<Seq<char>>) -> Result<Seq<ScriptItem>, Seq<char>> {
    match script {
        None => Ok(Seq::empty()),
        Some(s) => if s.len() == 0 {
            Ok(Seq::empty())
        } else {
            match script_text(s) {
                Err(m) => Err(m),
                Ok(x) => match tokens_lexed(x) {
                    Err(m) => Err(m),
                    Ok(_) => match script_items_parsed(x) {
                        Err(e) => Err("invalid <script>: "@ + e),
                        Ok(items) => Ok(items),
                    },
                },
            }
        },
    }
}

/// The component's code for a whole `.vrs` source: why the source does not
/// split or its script does not read, or the code (or why it cannot be
/// generated) for the blocks and the script's statements.
pub open spec fn source_component(name: Seq<char>, source: Seq<char>, scope_seed: Seq<char>, rerun: Option<Seq<char>>) -> Result<
    Result<Seq<char>, GenErrorV>,
    Seq<char>,
> {
    match spec_split_sfc(source) {
        Err(m) => Err(m),
        Ok(blocks) => match script_items_of(blocks.1) {
            Err(m) => Err(m),
            Ok(items) => Ok(component_code(name, blocks.0, blocks.2, items, scope_seed, rerun)),
        },
    }
}

/// The generation for a whole source stops at a name `Ident::new` refuses.
pub open spec fn source_hits_invalid_ident(c: Result<Result<Seq<char>, GenErrorV>, Seq<char>>) -> bool {
    c matches Ok(out) && component_hits_invalid_ident(out)
}

/// What compiling a whole source handed back fits `c`: the error of a source
/// that does not split or whose script does not read, else as for the code.
pub open spec fn source_compiled(c: Result<Result<Seq<char>, GenErrorV>, Seq<char>>, r: Result<SourceTokens, CompileError>) -> bool {
    match c {
        Err(m) => r matches Err(e) && e.0@ == m,
        Ok(out) => component_compiled(out, r),
    }
}

/// The statements of a `<script>` block, rewritten and parsed.
fn script_items_exec(script: &Option<String>) -> (r: Result<Vec<ScriptItem>, CompileError>)
    ensures
        match r {
            Ok(v) => script_items_of(opt_view(*script)) == Ok::<Seq<ScriptItem>, Seq<char>>(v@),
            Err(e) => script_items_of(opt_view(*script)) == Err::<Seq<ScriptItem>, Seq<char>>(e.0@),
        },
{
    let s = match script {
        None => return Ok(Vec::new()),
        Some(s) => s,
    };
    proof {
        reveal_strlit("");
    }
    if str_eq(s.as_str(), "") {
        assert(s@ =~= Seq::<char>::empty());
        return Ok(Vec::new());
    }
    assert(s@.len() != 0) by {
        if s@.len() == 0 {
            assert(s@ =~= ""@);
        }
    }
    let text = match rewrite_script_text(s.as_str()) {
        Err(e) => return Err(e),
        Ok(t) => t,
    };
    match lex_source(text.as_str()) {
        Err(e) => return Err(CompileError(e)),
        Ok(_) => {},
    }
    match parse_script_items(text.as_str()) {
        Err(e) => Err(CompileError(cat("invalid <script>: ", e.as_str()))),
        Ok(items) => Ok(items),
    }
}

/// Compile a whole `.vrs` source into a component: the render function
/// `pub fn Name<B: Backend>` plus its `NameProps` builder, `NameSlots` struct,
/// hoisted `use` and `struct` items and scoped-style const, as the stream
/// lexed from the component's code. `scope_seed` is hashed for the `data-v-*`
/// scope id; when `rerun_path` is given, a `const _: &[u8] = include_bytes!(..);`
/// rebuild trigger is emitted inside the render function.
pub fn compile_component(name: &str, source: &str, scope_seed: &str, rerun_path: Option<&str>) -> (r: Result<
    SourceTokens,
    CompileError,
>)
    requires
        !source_hits_invalid_ident(
            source_component(name@, source@, scope_seed@, crate::compiler::codegen::opt_view(rerun_path)),
        ),
    ensures
        source_compiled(source_component(name@, source@, scope_seed@, crate::compiler::codegen::opt_view(rerun_path)), r),
{
    let sfc = match split_sfc(source) {
        Err(e) => return Err(e),
        Ok(sfc) => sfc,
    };
    let items = match script_items_exec(&sfc.script) {
        Err(e) => return Err(e),
        Ok(items) => items,
    };
    compile_component_parts(name, &sfc, &items, scope_seed, rerun_path)
}

/// [`compile_component`] for any input: `None` where generation would reach a
/// name that `Ident::new` refuses.
pub fn compile_component_checked(name: &str, source: &str, scope_seed: &str, rerun_path: Option<&str>) -> (r: Option<
    Result<SourceTokens, CompileError>,
>)
    ensures
        r is None <==> source_hits_invalid_ident(
            source_component(name@, source@, scope_seed@, crate::compiler::codegen::opt_view(rerun_path)),
        ),
        r matches Some(c) ==> source_compiled(
            source_component(name@, source@, scope_seed@, crate::compiler::codegen::opt_view(rerun_path)),
            c,
        ),
{
    let sfc = match split_sfc(source) {
        Err(e) => return Some(Err(e)),
        Ok(sfc) => sfc,
    };
    let items = match script_items_exec(&sfc.script) {
        Err(e) => return Some(Err(e)),
        Ok(items) => items,
    };
    compile_component_parts_checked(name, &sfc, &items, scope_seed, rerun_path)
}

} // verus!

verus! {

/// The component around its rebuild trigger: the code before the trigger
/// and the code after it, or why it cannot be generated.
pub open spec fn component_frame(
    name: Seq<char>,
    template: Seq<char>,
    style: Option<Seq<char>>,
    items: Seq<ScriptItem>,
    scope_seed: Seq<char>,
) -> Result<(Seq<char>, Seq<char>), GenErrorV> {
    let p = parts_of(items, name);
    let checked = match p.props {
        Some(ps) => props_check(ps),
        None => Ok(()),
    };
    match checked {
        Err(m) => Err(GenErrorV::Message(m)),
        Ok(()) => {
            let scoped = match p.slots {
                Some(s) => slot_fields_of(s),
                None => seq![],
            };
            let scope = match style {
                Some(_) => Some(spec_scope_id(scope_seed)),
                None => None,
            };
            match template_code(template, GenCtx { scope, payloads: scoped }) {
                Err(e) => Err(e),
                Ok((tmpl, used)) => match slot_defs(used, scoped, name + "Slots"@, 0, seq![]) {
                    Err(m) => Err(GenErrorV::Message(m)),
                    Ok(defs) => {
                        let (sdef, sparam) = slots_struct_code(name + "Slots"@, defs);
                        let props_defs = match p.props {
                            Some(ps) => props_builder_code(ps),
                            None => Ok(Seq::<char>::empty()),
                        };
                        match props_defs {
                            Err(m) => Err(GenErrorV::Message(m)),
                            Ok(pd) => {
                                let const_name = str_upper(name + "_STYLE"@);
                                let style_const = match style {
                                    Some(css) => if ident_ok(const_name) {
                                        Ok(style_const_text(const_name, spec_scope_css(css, spec_scope_id(scope_seed))))
                                    } else {
                                        Err(GenErrorV::InvalidIdent(const_name))
                                    },
                                    None => Ok(Seq::<char>::empty()),
                                };
                                match style_const {
                                    Err(e) => Err(e),
                                    Ok(sc) => {
                                        let props_param = match p.props {
                                            Some(ps) => ", props: "@ + ps.name@,
                                            None => Seq::<char>::empty(),
                                        };
                                        Ok((
                                            spaced(p.uses, 0) + spaced(p.structs, 0) + pd + " "@ + sdef + " "@ + sc + " "@
                                                + "#[allow(non_snake_case)] pub fn "@ + name
                                                + "<B: ::vue_rs_dom::Backend>(__backend: B "@ + props_param + " "@
                                                + sparam + " ) -> B::Node { "@,
                                            " use ::vue_rs_dom::El; ::vue_rs_reactive::run_in_child_scope(move || { "@
                                                + spaced(p.body, 0) + tmpl + " }) }"@,
                                        ))
                                    },
                                }
                            },
                        }
                    },
                },
            }
        },
    }
}


/// The scoped-style constant a component emits for its `<style>` block: none
/// without one.
pub open spec fn style_piece(name: Seq<char>, style: Option<Seq<char>>, scope_seed: Seq<char>) -> Seq<char> {
    match style {
        Some(css) => style_const_text(str_upper(name + "_STYLE"@), spec_scope_css(css, spec_scope_id(scope_seed))),
        None => Seq::<char>::empty(),
    }
}

/// The scope a component's template is lowered with: the scope id of its
/// seed when it has a `<style>` block, none otherwise.
pub open spec fn scope_for(style: Option<Seq<char>>, scope_seed: Seq<char>) -> Option<Seq<char>> {
    match style {
        Some(_) => Some(spec_scope_id(scope_seed)),
        None => None,
    }
}

/// The rebuild trigger is the only difference a rerun path makes: a
/// component generated with a path is the one generated without it with
/// `const _: &[u8] = include_bytes!("path");` inserted at the start of the
/// render function's body; and generation fails the same way with or without
/// a path.
#[verifier::spinoff_prover]
#[verifier::rlimit(100)]
pub proof fn law_component_rerun_item(
    name: Seq<char>,
    template: Seq<char>,
    style: Option<Seq<char>>,
    items: Seq<ScriptItem>,
    scope_seed: Seq<char>,
    path: Seq<char>,
)
    ensures
        rerun_text(Some(path)) == "const _: &[u8] = include_bytes!("@ + str_lit(path) + ");"@,
        rerun_text(None) == Seq::<char>::empty(),
        match (
            component_code(name, template, style, items, scope_seed, None),
            component_code(name, template, style, items, scope_seed, Some(path)),
        ) {
            (Ok(without), Ok(with)) => exists|pre: Seq<char>, post: Seq<char>|
                without == pre + post && with == pre + rerun_text(Some(path)) + post,
            (Err(e0), Err(e1)) => e0 == e1,
            _ => false,
        },
{
    lemma_component_frame(name, template, style, items, scope_seed, None);
    lemma_component_frame(name, template, style, items, scope_seed, Some(path));
    if let Ok((pre, post)) = component_frame(name, template, style, items, scope_seed) {
        assert(pre + post =~= pre + rerun_text(None) + post);
    }
}

/// The component is its frame with the rebuild trigger in between.
#[verifier::spinoff_prover]
#[verifier::rlimit(100)]
proof fn lemma_component_frame(
    name: Seq<char>,
    template: Seq<char>,
    style: Option<Seq<char>>,
    items: Seq<ScriptItem>,
    scope_seed: Seq<char>,
    rerun: Option<Seq<char>>,
)
    ensures
        component_code(name, template, style, items, scope_seed, rerun) == match component_frame(
            name,
            template,
            style,
            items,
            scope_seed,
        ) {
            Ok((pre, post)) => Ok::<Seq<char>, GenErrorV>(pre + rerun_text(rerun) + post),
            Err(e) => Err(e),
        },
{
    let c = component_code(name, template, style, items, scope_seed, rerun);
    if let Ok((pre, post)) = component_frame(name, template, style, items, scope_seed) {
        assert(c->Ok_0 =~= pre + rerun_text(rerun) + post);
    }
}

/// A component with a `<style>` block carries its scoped-style constant
/// `pub const NAME_STYLE: &str = "..";` (`NAME` the component's name upper-cased,
/// the value the style scoped with the seed's scope id), and its template is
/// lowered with that scope id, which marks every element; without a `<style>`
/// block there is no constant and the template is lowered without a scope.
#[verifier::spinoff_prover]
#[verifier::rlimit(100)]
pub proof fn law_component_scoped_style(
    name: Seq<char>,
    template: Seq<char>,
    style: Option<Seq<char>>,
    items: Seq<ScriptItem>,
    scope_seed: Seq<char>,
    rerun: Option<Seq<char>>,
)
    ensures
        component_code(name, template, style, items, scope_seed, rerun) matches Ok(t) ==> exists|
            pre: Seq<char>,
            mid: Seq<char>,
            tmpl: Seq<char>,
            used: crate::compiler::codegen::Slots,
            post: Seq<char>,
        |
            {
                &&& t == pre + style_piece(name, style, scope_seed) + mid + tmpl + post
                &&& template_code(
                    template,
                    GenCtx {
                        scope: scope_for(style, scope_seed),
                        payloads: match parts_of(items, name).slots {
                            Some(s) => slot_fields_of(s),
                            None => seq![],
                        },
                    },
                ) == Ok::<(Seq<char>, crate::compiler::codegen::Slots), GenErrorV>((tmpl, used))
            },
{
    let p = parts_of(items, name);
    let t0 = component_code(name, template, style, items, scope_seed, rerun);
    if t0 is Ok {
        let scoped = match p.slots {
            Some(s) => slot_fields_of(s),
            None => seq![],
        };
        let (tmpl, used) = template_code(template, GenCtx { scope: scope_for(style, scope_seed), payloads: scoped })->Ok_0;
        let defs = slot_defs(used, scoped, name + "Slots"@, 0, seq![])->Ok_0;
        let (sdef, sparam) = slots_struct_code(name + "Slots"@, defs);
        let pd = match p.props {
            Some(ps) => props_builder_code(ps)->Ok_0,
            None => Seq::<char>::empty(),
        };
        let props_param = match p.props {
            Some(ps) => ", props: "@ + ps.name@,
            None => Seq::<char>::empty(),
        };
        let pre = spaced(p.uses, 0) + spaced(p.structs, 0) + pd + " "@ + sdef + " "@;
        let mid = " "@ + "#[allow(non_snake_case)] pub fn "@ + name + "<B: ::vue_rs_dom::Backend>(__backend: B "@
            + props_param + " "@ + sparam + " ) -> B::Node { "@ + rerun_text(rerun)
            + " use ::vue_rs_dom::El; ::vue_rs_reactive::run_in_child_scope(move || { "@ + spaced(p.body, 0);
        let post = " }) }"@;
        assert(t0->Ok_0 =~= pre + style_piece(name, style, scope_seed) + mid + tmpl + post);
    }
}

} // verus!
