//! Lowers the template syntax tree into `El`-builder Rust code.
//!
//! The generated code is assembled as source text. Tokens are separated so
//! that the text lexes to the token stream the builder code is made of:
//! multi-character operators (`::`, `=>`, `||`, `..`) are written joined and
//! every other operator character stands apart, and each Rust fragment taken
//! from the template is inserted in the canonical spelling of its parsed
//! tokens (see [`crate::compiler::tokens`]).
use vstd::prelude::*;
use crate::compiler::ast::{ElementV, NodeV, AttrV};
use crate::compiler::directives::{
    button_of, class_object, class_shape, component_tag, component_v_model, dyn_attr, flag_field, key_of,
    keyboard_event, mouse_event, slot_dir, static_attr, structural, class_attr, style_attr, style_object,
    style_shape, ClassSyntax, StyleSyntax,
};
use crate::compiler::scan::{camel_from, spec_dynamic_arg};
use crate::compiler::tokens::{
    array_parsed, expr_code, ident_ok, ident_parsed, lexed, str_debug, str_lit, u16_lit, usize_lit,
};
use crate::compiler::ast::{attrs_view, element_view, lemma_nodes_view_index, node_view, nodes_view, Attr, Element, Node};
use crate::compiler::directives::{
    class_syntax, find_dyn, find_static, is_class_attr, is_component, is_component_v_model, slot_directive, is_structural, is_style_attr, is_keyboard_event, is_mouse_event, key_name, modifier_flag, mouse_button, pairs_view,
    parse_class_object, parse_style_object, style_syntax,
};
use crate::compiler::parser::{parse, spec_parse};
use crate::compiler::scan::{camelize, dynamic_arg};
use crate::compiler::tokens::{
    debug_str, lex_text, parse_array_elems, parse_expr, parse_ident, string_literal, u16_literal, usize_literal,
    valid_ident,
};
use crate::text::{
    cat, cat3, chars_of, find, find_from, lemma_find_from, occurs_at, slice_chars, trim, join_seq, join_strings, lemma_split_nonempty, split_chars, split_seq,
    starts_with, str_eq, str_starts_with, string_of, string_views, trim_seq, views,
};

verus! {

// ---------------------------------------------------------------------------
// The model: what each construct lowers to
// ---------------------------------------------------------------------------

/// Why code generation stopped.
pub enum GenErrorV {
    /// A compile error, with its message.
    Message(Seq<char>),
    /// A name that `proc_macro2::Ident::new` refuses (it panics on it).
    InvalidIdent(Seq<char>),
}

/// What the generator knows besides the template: the scoped-CSS id, if any,
/// and each scoped slot's payload type (by slot name; a later entry for the
/// same name wins).
pub struct GenCtx {
    pub scope: Option<Seq<char>>,
    pub payloads: Seq<(Seq<char>, Seq<char>)>,
}

/// The `<slot>`s a template emitted, as `(name, scoped)`, in first-seen order.
pub type Slots = Seq<(Seq<char>, bool)>;

/// `slots` after recording a `<slot>` named `name`: a repeat of a name already
/// seen is ignored.
pub open spec fn record(slots: Slots, name: Seq<char>, scoped: bool) -> Slots {
    if exists|i: int| 0 <= i < slots.len() && (#[trigger] slots[i]).0 == name {
        slots
    } else {
        slots.push((name, scoped))
    }
}

/// The payload type of the last entry for `name` among the first `k` entries.
pub open spec fn payload_upto(ps: Seq<(Seq<char>, Seq<char>)>, name: Seq<char>, k: int) -> Option<Seq<char>>
    decreases k,
{
    if k <= 0 || k > ps.len() {
        None
    } else if ps[k - 1].0 == name {
        Some(ps[k - 1].1)
    } else {
        payload_upto(ps, name, k - 1)
    }
}

/// The payload type declared for the scoped slot `name`.
pub open spec fn payload_of(cx: GenCtx, name: Seq<char>) -> Option<Seq<char>> {
    payload_upto(cx.payloads, name, cx.payloads.len() as int)
}

/// A name checked the way `Ident::new` checks it.
pub open spec fn ident_code(s: Seq<char>) -> Result<Seq<char>, GenErrorV> {
    if ident_ok(s) {
        Ok(s)
    } else {
        Err(GenErrorV::InvalidIdent(s))
    }
}

/// A radio input's `value`: static text, or a parsed `:value` expression.
pub enum RadioV {
    Static(Seq<char>),
    Dyn(Seq<char>),
}

// --- `v-model` on an element -------------------------------------------------

/// The `.lazy` / `.trim` / `.number` flags of `v-model` modifiers from `k` on.
pub open spec fn model_mods(mods: Seq<Seq<char>>, k: int, lazy: bool, trim: bool, number: bool) -> Result<
    (bool, bool, bool),
    Seq<char>,
>
    decreases mods.len() - k,
{
    if k < 0 || k >= mods.len() {
        Ok((lazy, trim, number))
    } else if mods[k] == "lazy"@ {
        model_mods(mods, k + 1, true, trim, number)
    } else if mods[k] == "trim"@ {
        model_mods(mods, k + 1, lazy, true, number)
    } else if mods[k] == "number"@ {
        model_mods(mods, k + 1, lazy, trim, true)
    } else {
        Err("unknown v-model modifier `."@ + mods[k] + "`"@)
    }
}

/// `v-model` on a checkbox: bind `checked`, and write the new state back on `change`.
pub open spec fn checkbox_code(model: Seq<char>) -> Seq<char> {
    ".dyn_bool_prop(\"checked\", move || ( "@ + model + " ).get()) .on_value(\"change\", move |__value| ( "@
        + model + " ).set(__value == \"true\"))"@
}

/// `v-model` on a radio: `checked` reflects equality with the radio's value,
/// and selecting it writes that value back.
pub open spec fn radio_code(model: Seq<char>, rv: RadioV) -> Seq<char> {
    let checked = match rv {
        RadioV::Static(s) => "( "@ + model + " ).get() == "@ + str_lit(s),
        RadioV::Dyn(e) => "( "@ + model + " ).get() == ( "@ + e + " )"@,
    };
    let set_val = match rv {
        RadioV::Static(s) => str_lit(s) + ".to_string()"@,
        RadioV::Dyn(e) => e,
    };
    ".dyn_bool_prop(\"checked\", move || "@ + checked + " ) .on_value(\"change\", move |_| ( "@ + model
        + " ).set( "@ + set_val + " ))"@
}

/// `v-model` on a text-like control, refined by `.lazy`, `.trim` and `.number`.
pub open spec fn text_model_code(model: Seq<char>, tag: Seq<char>, lazy: bool, trim: bool, number: bool) -> Seq<char> {
    let select = tag == "select"@;
    let textarea = tag == "textarea"@;
    let event = if lazy || select { "change"@ } else { "input"@ };
    let text = if trim { "__value.trim()"@ } else { "__value"@ };
    let set_arg = if number {
        "match "@ + text
            + " .parse() { ::core::result::Result::Ok(__n) => __n, ::core::result::Result::Err(_) => ( "@
            + model + " ).get(), }"@
    } else {
        text + " .to_string()"@
    };
    let bind = if textarea || select {
        ".dyn_prop(\"value\", move || (( "@ + model + " ).get()).to_string())"@
    } else {
        ".dyn_attr(\"value\", move || (( "@ + model + " ).get()).to_string())"@
    };
    bind + " .on_value("@ + str_lit(event) + ", move |__value| ( "@ + model + " ).set( "@ + set_arg + " ))"@
}

/// An element's `v-model[.modifiers]="value"`.
pub open spec fn vmodel_code(
    name: Seq<char>,
    value: Seq<char>,
    tag: Seq<char>,
    input_type: Option<Seq<char>>,
    radio: Option<RadioV>,
) -> Result<Seq<char>, Seq<char>> {
    match expr_code(value) {
        Err(m) => Err(m),
        Ok(model) => {
            let mods = split_seq(name, '.');
            if input_type == Some("checkbox"@) {
                if mods.len() > 1 {
                    Err("v-model modifier `."@ + mods[1] + "` is not supported on a checkbox"@)
                } else {
                    Ok(checkbox_code(model))
                }
            } else if input_type == Some("radio"@) {
                if mods.len() > 1 {
                    Err("v-model modifier `."@ + mods[1] + "` is not supported on a radio"@)
                } else {
                    match radio {
                        None => Err("`v-model` on a radio input requires a `value` or `:value` attribute"@),
                        Some(rv) => Ok(radio_code(model, rv)),
                    }
                }
            } else {
                match model_mods(mods, 1, false, false, false) {
                    Err(m) => Err(m),
                    Ok((lazy, trim, number)) => Ok(text_model_code(model, tag, lazy, trim, number)),
                }
            }
        },
    }
}

// --- other attributes ---------------------------------------------------------

/// `v-show`: toggle `display: none` onto the element's base style.
pub open spec fn vshow_code(value: Seq<char>, base: Option<Seq<char>>) -> Result<Seq<char>, Seq<char>> {
    match expr_code(value) {
        Err(m) => Err(m),
        Ok(cond) => {
            let b = match base {
                Some(x) => x,
                None => "::std::string::String::new()"@,
            };
            Ok(".dyn_attr(\"style\", move || { let __base: ::std::string::String = "@ + b + " ; if ( "@ + cond
                + " ) { __base } else if __base.is_empty() { \"display: none\".to_string() } else { ::std::format!(\"{}; display: none\", __base) } })"@)
        },
    }
}

/// The `.prop` / `.attr` / `.camel` flags of bind modifiers from `k` on.
pub open spec fn bind_mods(mods: Seq<Seq<char>>, k: int, name: Seq<char>, prop: bool, attr: bool, camel: bool) -> Result<
    (bool, bool, bool),
    Seq<char>,
>
    decreases mods.len() - k,
{
    if k < 0 || k >= mods.len() {
        Ok((prop, attr, camel))
    } else if mods[k] == "prop"@ {
        bind_mods(mods, k + 1, name, true, attr, camel)
    } else if mods[k] == "attr"@ {
        bind_mods(mods, k + 1, name, prop, true, camel)
    } else if mods[k] == "camel"@ {
        bind_mods(mods, k + 1, name, prop, attr, true)
    } else {
        Err("unknown bind modifier `."@ + mods[k] + "` on `:"@ + name + "`"@)
    }
}

/// A bound attribute `:name[.modifiers]="expr"` (or a dynamic `:[arg]`).
pub open spec fn bind_code(name: Seq<char>, expr: Seq<char>) -> Result<Seq<char>, Seq<char>> {
    match spec_dynamic_arg(name) {
        Some((arg, mods)) => if mods.len() > 0 {
            Err("modifiers are not supported on dynamic attribute arguments (`:"@ + name + "`)"@)
        } else {
            match expr_code(arg) {
                Err(m) => Err(m),
                Ok(a) => match expr_code(expr) {
                    Err(m) => Err(m),
                    Ok(v) => Ok(".dyn_attr_named(move || ( "@ + a + " ).to_string(), move || ( "@ + v
                        + " ).to_string())"@),
                },
            }
        },
        None => {
            let parts = split_seq(name, '.');
            match bind_mods(parts, 1, name, false, false, false) {
                Err(m) => Err(m),
                Ok((prop, attr, camel)) => if prop && attr {
                    Err("`:"@ + name + "` cannot be both `.prop` and `.attr`"@)
                } else {
                    let bound = if camel { camel_from(parts[0], 0, false) } else { parts[0] };
                    match expr_code(expr) {
                        Err(m) => Err(m),
                        Ok(e) => if prop {
                            Ok(".dyn_prop("@ + str_lit(bound) + ", move || ( "@ + e + " ).to_string())"@)
                        } else {
                            Ok(".dyn_attr("@ + str_lit(bound) + ", move || ( "@ + e + " ).to_string())"@)
                        },
                    }
                },
            }
        },
    }
}

/// The `EventOptions` literal for an event's modifiers, from `k` on: `fields`
/// holds the flag initializers so far (each followed by `, `), `keys` and
/// `buttons` the spelled key strings and button numbers.
pub open spec fn opts_code(
    event: Seq<char>,
    mods: Seq<Seq<char>>,
    full: Seq<char>,
    k: int,
    fields: Seq<char>,
    keys: Seq<Seq<char>>,
    buttons: Seq<Seq<char>>,
) -> Result<Seq<char>, Seq<char>>
    decreases mods.len() - k,
{
    if k < 0 || k >= mods.len() {
        let keys_part = if keys.len() == 0 { Seq::<char>::empty() } else { "keys: &[ "@ + join_seq(keys, ", "@) + " ], "@ };
        let buttons_part = if buttons.len() == 0 {
            Seq::<char>::empty()
        } else {
            "buttons: &[ "@ + join_seq(buttons, ", "@) + " ], "@
        };
        Ok("::vue_rs_dom::EventOptions { "@ + fields + keys_part + buttons_part
            + ".. ::core::default::Default::default() }"@)
    } else {
        let m = mods[k];
        match flag_field(m) {
            Some(f) => opts_code(event, mods, full, k + 1, fields + f + ", "@, keys, buttons),
            None => if mouse_event(event) && button_of(m) is Some {
                opts_code(event, mods, full, k + 1, fields, keys, buttons.push(u16_lit(button_of(m)->0)))
            } else if keyboard_event(event) && key_of(m) is Some {
                opts_code(event, mods, full, k + 1, fields, keys.push(str_lit(key_of(m)->0)), buttons)
            } else {
                Err("unknown event modifier `."@ + m + "` on `@"@ + full + "`"@)
            },
        }
    }
}

/// An event listener `@name[.modifiers]="handler"` (or a dynamic `@[arg]`).
pub open spec fn event_code(name: Seq<char>, handler: Seq<char>) -> Result<Seq<char>, Seq<char>> {
    match spec_dynamic_arg(name) {
        Some((arg, mods)) => if mods.len() > 0 {
            Err("modifiers are not supported on dynamic event arguments (`@"@ + name + "`)"@)
        } else {
            match expr_code(arg) {
                Err(m) => Err(m),
                Ok(a) => match expr_code(handler) {
                    Err(m) => Err(m),
                    Ok(h) => Ok(".on_named(move || ( "@ + a + " ).to_string(), move || { "@ + h + " })"@),
                },
            }
        },
        None => match expr_code(handler) {
            Err(m) => Err(m),
            Ok(h) => {
                let parts = split_seq(name, '.');
                if parts.len() <= 1 {
                    Ok(".on("@ + str_lit(parts[0]) + ", move || { "@ + h + " })"@)
                } else {
                    match opts_code(parts[0], parts.drop_first(), name, 0, Seq::<char>::empty(), seq![], seq![]) {
                        Err(m) => Err(m),
                        Ok(opts) => Ok(".on_opts("@ + str_lit(parts[0]) + ", "@ + opts + ", move || { "@ + h
                            + " })"@),
                    }
                }
            },
        },
    }
}

/// One attribute of a plain element, given the element's base style (when
/// `v-show` owns `style`), tag, static `type` and radio value.
pub open spec fn attr_code(
    a: AttrV,
    base: Option<Seq<char>>,
    tag: Seq<char>,
    input_type: Option<Seq<char>>,
    radio: Option<RadioV>,
) -> Result<Seq<char>, Seq<char>> {
    match a {
        AttrV::Static { name, value } => if name == "v-model"@ || starts_with(name, "v-model."@) {
            vmodel_code(name, value, tag, input_type, radio)
        } else if name == "v-show"@ {
            vshow_code(value, base)
        } else if name == "v-html"@ {
            match expr_code(value) {
                Err(m) => Err(m),
                Ok(e) => Ok(".dyn_inner_html(move || "@ + e + " )"@),
            }
        } else if name == "v-text"@ {
            match expr_code(value) {
                Err(m) => Err(m),
                Ok(e) => Ok(".dyn_text(move || ( "@ + e + " ).to_string())"@),
            }
        } else if name == "ref"@ {
            match ident_parsed(value) {
                Err(_) => Err("`ref` value must be an identifier, got "@ + str_debug(value)),
                Ok(b) => Ok(".node_ref(& "@ + b + " )"@),
            }
        } else {
            Ok(".attr("@ + str_lit(name) + ", "@ + str_lit(value) + ")"@)
        },
        AttrV::Dyn { name, expr } => bind_code(name, expr),
        AttrV::Event { name, handler } => event_code(name, handler),
    }
}

// --- merged `class` and `style` ------------------------------------------------

/// `chain` followed by a `.push(elem)` for each element from `k` on.
pub open spec fn push_all(elems: Seq<Seq<char>>, k: int, chain: Seq<char>) -> Seq<char>
    decreases elems.len() - k,
{
    if k < 0 || k >= elems.len() {
        chain
    } else {
        push_all(elems, k + 1, chain + " .push( "@ + elems[k] + " )"@)
    }
}

/// `chain` followed by a `.push_if(name, cond)` for each object entry from `k` on.
pub open spec fn push_ifs(entries: Seq<(Seq<char>, Seq<char>)>, k: int, chain: Seq<char>) -> Result<Seq<char>, Seq<char>>
    decreases entries.len() - k,
{
    if k < 0 || k >= entries.len() {
        Ok(chain)
    } else {
        match expr_code(entries[k].1) {
            Err(m) => Err(m),
            Ok(c) => push_ifs(entries, k + 1, chain + " .push_if("@ + str_lit(entries[k].0) + ", "@ + c + " )"@),
        }
    }
}

/// `chain` followed by a `.push_prop(prop, value)` for each object entry from `k` on.
pub open spec fn push_props(entries: Seq<(Seq<char>, Seq<char>)>, k: int, chain: Seq<char>) -> Result<Seq<char>, Seq<char>>
    decreases entries.len() - k,
{
    if k < 0 || k >= entries.len() {
        Ok(chain)
    } else {
        match expr_code(entries[k].1) {
            Err(m) => Err(m),
            Ok(v) => push_props(
                entries,
                k + 1,
                chain + " .push_prop("@ + str_lit(entries[k].0) + ", ( "@ + v + " ).to_string())"@,
            ),
        }
    }
}

/// A fresh list builder, with the static value pushed first when there is one.
pub open spec fn list_start(ty: Seq<char>, static_value: Option<Seq<char>>) -> Seq<char> {
    match static_value {
        Some(v) => ty + " .push("@ + str_lit(v) + ")"@,
        None => ty,
    }
}

/// The merged `class` attribute: the static `class` first, then the `:class`
/// binding's object entries, array elements or plain value.
pub open spec fn class_code(static_class: Option<Seq<char>>, dyn_expr: Seq<char>) -> Result<Seq<char>, Seq<char>> {
    let c1 = list_start("::vue_rs_dom::ClassList::new()"@, static_class);
    let chain = match class_shape(dyn_expr) {
        ClassSyntax::Object => match class_object(dyn_expr) {
            Err(m) => Err(m),
            Ok(entries) => push_ifs(entries, 0, c1),
        },
        ClassSyntax::Array => match array_parsed(dyn_expr) {
            Err(e) => Err("invalid `:class` array `"@ + dyn_expr + "`: "@ + e),
            Ok(elems) => Ok(push_all(elems, 0, c1)),
        },
        ClassSyntax::Plain => match expr_code(dyn_expr) {
            Err(m) => Err(m),
            Ok(e) => Ok(c1 + " .push( "@ + e + " )"@),
        },
    };
    match chain {
        Err(m) => Err(m),
        Ok(c) => Ok(".dyn_attr(\"class\", move || "@ + c + " .finish())"@),
    }
}

/// The expression yielding an element's merged style string, from its static
/// `style` and `:style` binding; `None` when it has neither.
pub open spec fn style_code(static_style: Option<Seq<char>>, dyn_style: Option<Seq<char>>) -> Result<
    Option<Seq<char>>,
    Seq<char>,
> {
    if static_style is None && dyn_style is None {
        Ok(None)
    } else {
        let c1 = list_start("::vue_rs_dom::StyleList::new()"@, static_style);
        let chain = match dyn_style {
            None => Ok(c1),
            Some(expr) => match style_shape(expr) {
                StyleSyntax::Object => match style_object(expr) {
                    Err(m) => Err(m),
                    Ok(entries) => push_props(entries, 0, c1),
                },
                StyleSyntax::Array => match array_parsed(expr) {
                    Err(e) => Err("invalid `:style` array `"@ + expr + "`: "@ + e),
                    Ok(elems) => Ok(push_all(elems, 0, c1)),
                },
                StyleSyntax::Plain => match expr_code(expr) {
                    Err(m) => Err(m),
                    Ok(e) => Ok(c1 + " .push( "@ + e + " )"@),
                },
            },
        };
        match chain {
            Err(m) => Err(m),
            Ok(c) => Ok(Some(c + " .finish()"@)),
        }
    }
}

// --- a plain element's opening chain -----------------------------------------

/// The base style `v-show` folds its toggle into: the element's merged style,
/// or an empty string; `None` without `v-show`.
pub open spec fn base_style_of(el: ElementV) -> Result<Option<Seq<char>>, Seq<char>> {
    if static_attr(el, "v-show"@) is Some {
        match style_code(static_attr(el, "style"@), dyn_attr(el, "style"@)) {
            Err(m) => Err(m),
            Ok(None) => Ok(Some("::std::string::String::new()"@)),
            Ok(Some(v)) => Ok(Some(v)),
        }
    } else {
        Ok(None)
    }
}

/// The merged `class` attribute, when a `:class` has a static sibling or is an
/// object or array.
pub open spec fn merged_class_of(el: ElementV) -> Result<Option<Seq<char>>, Seq<char>> {
    match dyn_attr(el, "class"@) {
        Some(expr) => if static_attr(el, "class"@) is Some || !(class_shape(expr) is Plain) {
            match class_code(static_attr(el, "class"@), expr) {
                Err(m) => Err(m),
                Ok(c) => Ok(Some(c)),
            }
        } else {
            Ok(None)
        },
        None => Ok(None),
    }
}

/// The merged `style` attribute, when a `:style` has a static sibling or is an
/// object or array, and `v-show` does not own `style`.
pub open spec fn merged_style_of(el: ElementV, base: Option<Seq<char>>) -> Result<Option<Seq<char>>, Seq<char>> {
    if base is Some {
        Ok(None)
    } else {
        match dyn_attr(el, "style"@) {
            Some(expr) => if static_attr(el, "style"@) is Some || !(style_shape(expr) is Plain) {
                match style_code(static_attr(el, "style"@), Some(expr)) {
                    Err(m) => Err(m),
                    Ok(None) => Ok(None),
                    Ok(Some(v)) => Ok(Some(".dyn_attr(\"style\", move || "@ + v + " )"@)),
                }
            } else {
                Ok(None)
            },
            None => Ok(None),
        }
    }
}

/// The static `type` of an `<input>`.
pub open spec fn input_type_of(el: ElementV) -> Option<Seq<char>> {
    if el.tag == "input"@ {
        static_attr(el, "type"@)
    } else {
        None
    }
}

/// A radio input's value, captured for its `v-model`.
pub open spec fn radio_of(el: ElementV) -> Result<Option<RadioV>, Seq<char>> {
    if input_type_of(el) == Some("radio"@) {
        match static_attr(el, "value"@) {
            Some(s) => Ok(Some(RadioV::Static(s))),
            None => match dyn_attr(el, "value"@) {
                Some(e) => match expr_code(e) {
                    Err(m) => Err(m),
                    Ok(t) => Ok(Some(RadioV::Dyn(t))),
                },
                None => Ok(None),
            },
        }
    } else {
        Ok(None)
    }
}

/// The chain after the attributes from `k` on. Structural attributes are
/// skipped; a merged `class` / `style` is emitted once, at its first attribute.
pub open spec fn attrs_code(
    el: ElementV,
    base: Option<Seq<char>>,
    mc: Option<Seq<char>>,
    ms: Option<Seq<char>>,
    radio: Option<RadioV>,
    k: int,
    class_done: bool,
    style_done: bool,
    chain: Seq<char>,
) -> Result<Seq<char>, Seq<char>>
    decreases el.attrs.len() - k,
{
    if k < 0 || k >= el.attrs.len() {
        Ok(chain)
    } else {
        let a = el.attrs[k];
        if structural(a) {
            attrs_code(el, base, mc, ms, radio, k + 1, class_done, style_done, chain)
        } else if base is Some && style_attr(a) {
            attrs_code(el, base, mc, ms, radio, k + 1, class_done, style_done, chain)
        } else if ms is Some && style_attr(a) {
            if style_done {
                attrs_code(el, base, mc, ms, radio, k + 1, class_done, true, chain)
            } else {
                attrs_code(el, base, mc, ms, radio, k + 1, class_done, true, chain + " "@ + ms->0)
            }
        } else if mc is Some && class_attr(a) {
            if class_done {
                attrs_code(el, base, mc, ms, radio, k + 1, true, style_done, chain)
            } else {
                attrs_code(el, base, mc, ms, radio, k + 1, true, style_done, chain + " "@ + mc->0)
            }
        } else {
            match attr_code(a, base, el.tag, input_type_of(el), radio) {
                Err(m) => Err(m),
                Ok(p) => attrs_code(el, base, mc, ms, radio, k + 1, class_done, style_done, chain + " "@ + p),
            }
        }
    }
}

/// `El::new(__backend.clone(), "tag")`, with the scoped-CSS marker attribute.
pub open spec fn el_start(cx: GenCtx, tag: Seq<char>) -> Seq<char> {
    let start = "El::new(__backend.clone(), "@ + str_lit(tag) + ")"@;
    match cx.scope {
        Some(sc) => start + " .attr("@ + str_lit("data-v-"@ + sc) + ", \"\")"@,
        None => start,
    }
}

/// A plain element's chain up to (not including) its children.
pub open spec fn head_code(cx: GenCtx, el: ElementV) -> Result<Seq<char>, Seq<char>> {
    match base_style_of(el) {
        Err(m) => Err(m),
        Ok(base) => match merged_class_of(el) {
            Err(m) => Err(m),
            Ok(mc) => match merged_style_of(el, base) {
                Err(m) => Err(m),
                Ok(ms) => match radio_of(el) {
                    Err(m) => Err(m),
                    Ok(rv) => attrs_code(el, base, mc, ms, rv, 0, false, false, el_start(cx, el.tag)),
                },
            },
        },
    }
}

/// `v-html` and `v-text` own the element's content.
pub open spec fn owns_content(el: ElementV) -> bool {
    static_attr(el, "v-html"@) is Some || static_attr(el, "v-text"@) is Some
}

// --- children -------------------------------------------------------------------

/// The number of element nodes in `cs` from `k` on.
pub open spec fn elem_count(cs: Seq<NodeV>, k: int) -> nat
    decreases cs.len() - k,
{
    if k < 0 || k >= cs.len() {
        0
    } else if cs[k] is Element {
        1 + elem_count(cs, k + 1)
    } else {
        elem_count(cs, k + 1)
    }
}

/// The index of the first element node in `cs` at or after `k`.
pub open spec fn first_elem(cs: Seq<NodeV>, k: int) -> int
    decreases cs.len() - k,
{
    if k < 0 || k >= cs.len() {
        cs.len() as int
    } else if cs[k] is Element {
        k
    } else {
        first_elem(cs, k + 1)
    }
}

/// Named-slot content `<template v-slot:..>` under a component.
pub open spec fn named_slot(n: NodeV) -> bool {
    n matches NodeV::Element(c) && c.tag == "template"@ && slot_dir(c) is Some
}

/// A component's default-slot content: its element children that are not
/// named-slot templates.
pub open spec fn default_node(n: NodeV) -> bool {
    n is Element && !named_slot(n)
}

/// The number of default-slot elements in `cs` from `k` on.
pub open spec fn default_count(cs: Seq<NodeV>, k: int) -> nat
    decreases cs.len() - k,
{
    if k < 0 || k >= cs.len() {
        0
    } else if default_node(cs[k]) {
        1 + default_count(cs, k + 1)
    } else {
        default_count(cs, k + 1)
    }
}

/// The index of the first default-slot element in `cs` at or after `k`.
pub open spec fn first_default(cs: Seq<NodeV>, k: int) -> int
    decreases cs.len() - k,
{
    if k < 0 || k >= cs.len() {
        cs.len() as int
    } else if default_node(cs[k]) {
        k
    } else {
        first_default(cs, k + 1)
    }
}

/// The end (exclusive) of a `v-if` chain whose `v-else-if` / `v-else` arms
/// start at `j`.
pub open spec fn chain_end(cs: Seq<NodeV>, j: int) -> int
    decreases cs.len() - j,
{
    if 0 <= j < cs.len() {
        match cs[j] {
            NodeV::Element(n) => if static_attr(n, "v-else-if"@) is Some {
                chain_end(cs, j + 1)
            } else if static_attr(n, "v-else"@) is Some {
                j + 1
            } else {
                j
            },
            _ => j,
        }
    } else {
        j
    }
}

/// The condition of arm `k` of the chain starting at `i`: `v-if` for the
/// first arm, `v-else-if` for the next ones, none for a `v-else`.
pub open spec fn arm_cond(cs: Seq<NodeV>, i: int, k: int) -> Option<Seq<char>> {
    match cs[k] {
        NodeV::Element(n) => if k == i {
            static_attr(n, "v-if"@)
        } else {
            static_attr(n, "v-else-if"@)
        },
        _ => None,
    }
}

/// The `v-for` expression split at its first ` in `.
pub open spec fn for_parts(fe: Seq<char>) -> Option<(Seq<char>, Seq<char>)> {
    match find_from(fe, " in "@, 0) {
        None => None,
        Some(p) => Some((trim_seq(fe.take(p)), trim_seq(fe.skip(p + " in "@.len())))),
    }
}

/// A `v-for` binding's `(item, index)` form: the lexed item and index
/// patterns, `None` for a single binding, or the error for a malformed tuple.
pub open spec fn index_binding(b: Seq<char>) -> Result<Option<(Seq<char>, Seq<char>)>, Seq<char>> {
    if b.len() >= 2 && b[0] == '(' && b[b.len() - 1] == ')' {
        let inner = b.subrange(1, b.len() - 1);
        match find_from(inner, seq![','], 0) {
            None => Err("v-for tuple binding must be `(item, index)`, got `"@ + b + "`"@),
            Some(c) => match lexed(trim_seq(inner.take(c))) {
                Err(e) => Err("invalid v-for item binding: "@ + e),
                Ok(item) => match lexed(trim_seq(inner.skip(c + 1))) {
                    Err(e) => Err("invalid v-for index binding: "@ + e),
                    Ok(index) => Ok(Some((item, index))),
                },
            },
        }
    } else {
        Ok(None)
    }
}

/// The `dyn_for` call for a keyed `v-for`, given its parts and the row view.
pub open spec fn for_call(iterable: Seq<char>, key: Seq<char>, view: Seq<char>, binding: Result<Option<(Seq<char>, Seq<char>)>, Seq<char>>, plain: Result<Seq<char>, Seq<char>>) -> Result<Seq<char>, Seq<char>> {
    match binding {
        Err(m) => Err(m),
        Ok(Some((item, index))) => Ok(".dyn_for(move || ( "@ + iterable
            + " ).into_iter().enumerate().collect:: < ::std::vec::Vec<_>>(), |( "@ + index + " , "@ + item
            + " )| ( "@ + key + " ).clone(), move |__backend, ( "@ + index + " , "@ + item + " )| "@ + view
            + " , )"@),
        Ok(None) => match plain {
            Err(e) => Err("invalid v-for binding: "@ + e),
            Ok(b) => Ok(".dyn_for(move || ( "@ + iterable + " ), | "@ + b + " | ( "@ + key
                + " ).clone(), move |__backend, "@ + b + " | "@ + view + " , )"@),
        },
    }
}

/// A `<slot>`: render the provided slot, or the fallback.
pub open spec fn slot_render(name: Seq<char>, payload: Seq<char>, fallback: Seq<char>) -> Seq<char> {
    "match &__slots."@ + name + " { ::core::option::Option::Some(__slot) => { __slot.render(__backend.clone(), "@
        + payload + " ) } ::core::option::Option::None => "@ + fallback + " , }"@
}

/// The bound attributes of `attrs` from `k` on, as `(name, expr)`.
pub open spec fn dyn_attrs_from(attrs: Seq<AttrV>, k: int) -> Seq<(Seq<char>, Seq<char>)>
    decreases attrs.len() - k,
{
    if k < 0 || k >= attrs.len() {
        seq![]
    } else {
        match attrs[k] {
            AttrV::Dyn { name, expr } => seq![(name, expr)] + dyn_attrs_from(attrs, k + 1),
            _ => dyn_attrs_from(attrs, k + 1),
        }
    }
}

/// The payload struct fields `name: expr` of a scoped `<slot>`, from `k` on.
pub open spec fn payload_fields(das: Seq<(Seq<char>, Seq<char>)>, k: int, acc: Seq<Seq<char>>) -> Result<
    Seq<Seq<char>>,
    GenErrorV,
>
    decreases das.len() - k,
{
    if k < 0 || k >= das.len() {
        Ok(acc)
    } else {
        let (attr, expr) = das[k];
        if spec_dynamic_arg(attr) is Some {
            Err(GenErrorV::Message("dynamic arguments (`"@ + attr + "`) are not supported on `<slot>`"@))
        } else if !ident_ok(attr) {
            Err(GenErrorV::InvalidIdent(attr))
        } else {
            match expr_code(expr) {
                Err(m) => Err(GenErrorV::Message(m)),
                Ok(x) => payload_fields(das, k + 1, acc.push(attr + ": "@ + x)),
            }
        }
    }
}

/// The prop and emit fields a component `v-model[:arg]` binds.
pub open spec fn model_fields(name: Seq<char>) -> Result<(Seq<char>, Seq<char>), GenErrorV> {
    let rest = name.skip("v-model"@.len() as int);
    if find_from(rest, seq!['.'], 0) is Some {
        Err(GenErrorV::Message("modifiers on a component `v-model` are not supported (`"@ + name + "`)"@))
    } else if rest.len() > 0 && rest[0] == ':' && rest.len() == 1 {
        Err(GenErrorV::Message("a component `v-model:` argument must not be empty"@))
    } else {
        let prop = if rest.len() > 0 && rest[0] == ':' { rest.skip(1) } else { "model_value"@ };
        if !ident_ok(prop) {
            Err(GenErrorV::InvalidIdent(prop))
        } else if !ident_ok("on_update_"@ + prop) {
            Err(GenErrorV::InvalidIdent("on_update_"@ + prop))
        } else {
            Ok((prop, "on_update_"@ + prop))
        }
    }
}

/// A component's prop fields from its attributes from `k` on.
pub open spec fn comp_fields(attrs: Seq<AttrV>, k: int, acc: Seq<Seq<char>>) -> Result<Seq<Seq<char>>, GenErrorV>
    decreases attrs.len() - k,
{
    if k < 0 || k >= attrs.len() {
        Ok(acc)
    } else if structural(attrs[k]) {
        comp_fields(attrs, k + 1, acc)
    } else {
        match attrs[k] {
            AttrV::Dyn { name, expr } => if spec_dynamic_arg(name) is Some {
                Err(GenErrorV::Message("dynamic arguments (`"@ + name + "`) are not supported on components"@))
            } else if !ident_ok(name) {
                Err(GenErrorV::InvalidIdent(name))
            } else {
                match expr_code(expr) {
                    Err(m) => Err(GenErrorV::Message(m)),
                    Ok(x) => comp_fields(attrs, k + 1, acc.push(name + ": ::core::convert::Into::into( "@ + x + " )"@)),
                }
            },
            AttrV::Event { name, handler } => if spec_dynamic_arg(name) is Some {
                Err(GenErrorV::Message("dynamic arguments (`"@ + name + "`) are not supported on components"@))
            } else if !ident_ok("on_"@ + name) {
                Err(GenErrorV::InvalidIdent("on_"@ + name))
            } else {
                match expr_code(handler) {
                    Err(m) => Err(GenErrorV::Message(m)),
                    Ok(x) => comp_fields(
                        attrs,
                        k + 1,
                        acc.push("on_"@ + name + ": ::vue_rs_dom::Callback::new( "@ + x + " )"@),
                    ),
                }
            },
            AttrV::Static { name, value } => if component_v_model(name) {
                match model_fields(name) {
                    Err(e) => Err(e),
                    Ok((vf, uf)) => match expr_code(value) {
                        Err(m) => Err(GenErrorV::Message(m)),
                        Ok(x) => comp_fields(
                            attrs,
                            k + 1,
                            acc.push(vf + ": ::core::convert::Into::into( "@ + x + " )"@).push(
                                uf + ": ::vue_rs_dom::Callback::new(move |__v| ( "@ + x + " ).set(__v))"@,
                            ),
                        ),
                    },
                }
            } else if name == "ref"@ {
                Err(GenErrorV::Message("template refs on components (the component instance) are not supported"@))
            } else if !ident_ok(name) {
                Err(GenErrorV::InvalidIdent(name))
            } else {
                comp_fields(attrs, k + 1, acc.push(name + ": "@ + str_lit(value)))
            },
        }
    }
}

/// A component call `Tag(__backend.clone(), [TagProps { .. },] TagSlots::for_backend(&__backend) ..)`.
pub open spec fn comp_call(tag: Seq<char>, fields: Seq<Seq<char>>, setters: Seq<char>) -> Result<Seq<char>, GenErrorV> {
    let props = if fields.len() == 0 {
        Ok(Seq::<char>::empty())
    } else if !ident_ok(tag + "Props"@) {
        Err(GenErrorV::InvalidIdent(tag + "Props"@))
    } else {
        Ok(", "@ + tag + "Props"@ + " { "@ + join_seq(fields, ", "@) + " }"@)
    };
    match props {
        Err(e) => Err(e),
        Ok(p) => if !ident_ok(tag + "Slots"@) {
            Err(GenErrorV::InvalidIdent(tag + "Slots"@))
        } else {
            Ok(tag + "( __backend.clone()"@ + p + ", "@ + tag + "Slots"@ + "::for_backend(&__backend)"@ + setters
                + " )"@)
        },
    }
}

// --- the recursive lowering -------------------------------------------------------

/// Lower an element: a `<slot>`, a component call, or an `El` builder chain.
pub open spec fn element_code(cx: GenCtx, el: ElementV, slots: Slots) -> Result<(Seq<char>, Slots), GenErrorV>
    decreases el, el.children.len() + 5,
{
    if el.tag == "slot"@ {
        slot_code(cx, el, slots)
    } else if component_tag(el.tag) {
        component_code(cx, el, slots)
    } else {
        match head_code(cx, el) {
            Err(m) => Err(GenErrorV::Message(m)),
            Ok(head) => if owns_content(el) {
                Ok((head + " .finish()"@, slots))
            } else {
                match children_code(cx, el.children, 0, head, slots) {
                    Err(e) => Err(e),
                    Ok((chain, s)) => Ok((chain + " .finish()"@, s)),
                }
            },
        }
    }
}

/// A `<slot>`: its fallback first, then the recorded slot and its payload.
pub open spec fn slot_code(cx: GenCtx, el: ElementV, slots: Slots) -> Result<(Seq<char>, Slots), GenErrorV>
    decreases el, el.children.len() + 4,
{
    let name = match static_attr(el, "name"@) {
        Some(v) => v,
        None => "default"@,
    };
    let das = dyn_attrs_from(el.attrs, 0);
    match fallback_code(cx, el, slots) {
        Err(e) => Err(e),
        Ok((fallback, s1)) => if !ident_ok(name) {
            Err(GenErrorV::InvalidIdent(name))
        } else if das.len() == 0 {
            Ok((slot_render(name, "()"@, fallback), record(s1, name, false)))
        } else {
            let s2 = record(s1, name, true);
            match payload_of(cx, name) {
                None => Err(GenErrorV::Message("scoped slot `"@ + name + "` needs a `"@ + name
                    + ": _` field in the component's Slots struct"@)),
                Some(ty) => match payload_fields(das, 0, seq![]) {
                    Err(e) => Err(e),
                    Ok(fields) => Ok((slot_render(name, ty + " { "@ + join_seq(fields, ", "@) + " }"@, fallback), s2)),
                },
            }
        }
    }
}

/// What a `<slot>` renders when nothing is provided: its single child element,
/// or an empty anchor.
pub open spec fn fallback_code(cx: GenCtx, el: ElementV, slots: Slots) -> Result<(Seq<char>, Slots), GenErrorV>
    decreases el, el.children.len() + 3,
{
    let n = elem_count(el.children, 0);
    if n == 0 {
        Ok(("::vue_rs_dom::Backend::create_anchor(&__backend)"@, slots))
    } else if n == 1 {
        let d = first_elem(el.children, 0);
        if 0 <= d < el.children.len() {
            match el.children[d] {
                NodeV::Element(e) => element_code(cx, e, slots),
                _ => Err(GenErrorV::Message(seq![])),
            }
        } else {
            Err(GenErrorV::Message(seq![]))
        }
    } else {
        Err(GenErrorV::Message("slot fallback content must be a single root element"@))
    }
}

/// The single element among `cs` (named-slot template content).
pub open spec fn single_root_code(cx: GenCtx, cs: Seq<NodeV>, slots: Slots) -> Result<(Seq<char>, Slots), GenErrorV>
    decreases cs, 0int,
{
    if elem_count(cs, 0) == 1 {
        let d = first_elem(cs, 0);
        if 0 <= d < cs.len() {
            match cs[d] {
                NodeV::Element(e) => element_code(cx, e, slots),
                _ => Err(GenErrorV::Message(seq![])),
            }
        } else {
            Err(GenErrorV::Message(seq![]))
        }
    } else {
        Err(GenErrorV::Message("slot content must be a single root element"@))
    }
}

/// A component call: its props, then its named slots in order, then its
/// default-slot content.
pub open spec fn component_code(cx: GenCtx, el: ElementV, slots: Slots) -> Result<(Seq<char>, Slots), GenErrorV>
    decreases el, el.children.len() + 4,
{
    if !ident_ok(el.tag) {
        Err(GenErrorV::InvalidIdent(el.tag))
    } else {
        match comp_fields(el.attrs, 0, seq![]) {
            Err(e) => Err(e),
            Ok(fields) => match comp_setters(cx, el, 0, Seq::<char>::empty(), slots) {
                Err(e) => Err(e),
                Ok((setters, s1)) => {
                    let n = default_count(el.children, 0);
                    let with_default = if n == 0 {
                        Ok((setters, s1))
                    } else if n == 1 {
                        let d = first_default(el.children, 0);
                        if 0 <= d < el.children.len() {
                            match el.children[d] {
                                NodeV::Element(e) => match element_code(cx, e, s1) {
                                    Err(e) => Err(e),
                                    Ok((content, s2)) => Ok((
                                        setters + " .with_default(move |__backend, ()| "@ + content + " )"@,
                                        s2,
                                    )),
                                },
                                _ => Err(GenErrorV::Message(seq![])),
                            }
                        } else {
                            Err(GenErrorV::Message(seq![]))
                        }
                    } else {
                        Err(GenErrorV::Message("default slot content must be a single root element"@))
                    };
                    match with_default {
                        Err(e) => Err(e),
                        Ok((all, s2)) => match comp_call(el.tag, fields, all) {
                            Err(e) => Err(e),
                            Ok(t) => Ok((t, s2)),
                        },
                    }
                },
            },
        }
    }
}

/// The `.with_<name>(..)` setters for a component's named-slot templates among
/// its children from `k` on, after `setters`.
pub open spec fn comp_setters(cx: GenCtx, el: ElementV, k: int, setters: Seq<char>, slots: Slots) -> Result<
    (Seq<char>, Slots),
    GenErrorV,
>
    decreases el, el.children.len() - k + 1,
{
    if k < 0 || k >= el.children.len() {
        Ok((setters, slots))
    } else {
        match el.children[k] {
            NodeV::Element(c) => if c.tag == "template"@ && slot_dir(c) is Some {
                let (name, binding) = slot_dir(c)->0;
                match single_root_code(cx, c.children, slots) {
                    Err(e) => Err(e),
                    Ok((content, s1)) => if !ident_ok("with_"@ + name) {
                        Err(GenErrorV::InvalidIdent("with_"@ + name))
                    } else if binding.len() == 0 {
                        comp_setters(
                            cx,
                            el,
                            k + 1,
                            setters + " .with_"@ + name + "(move |__backend, ()| "@ + content + " )"@,
                            s1,
                        )
                    } else {
                        match lexed(binding) {
                            Err(e) => Err(GenErrorV::Message("invalid v-slot binding `"@ + binding + "`: "@ + e)),
                            Ok(pat) => comp_setters(
                                cx,
                                el,
                                k + 1,
                                setters + " .with_"@ + name + "(move |__backend, "@ + pat + " | "@ + content + " )"@,
                                s1,
                            ),
                        }
                    }
                }
            } else {
                comp_setters(cx, el, k + 1, setters, slots)
            },
            _ => comp_setters(cx, el, k + 1, setters, slots),
        }
    }
}

/// The chain after the children from `i` on: text, interpolations, child
/// elements, `v-for` rows and `v-if` chains.
pub open spec fn children_code(cx: GenCtx, cs: Seq<NodeV>, i: int, chain: Seq<char>, slots: Slots) -> Result<
    (Seq<char>, Slots),
    GenErrorV,
>
    decreases cs, cs.len() - i + 1,
{
    if i < 0 || i >= cs.len() {
        Ok((chain, slots))
    } else {
        match cs[i] {
            NodeV::StaticText(t) => children_code(cx, cs, i + 1, chain + " .text("@ + str_lit(t) + ")"@, slots),
            NodeV::DynText(e) => match expr_code(e) {
                Err(m) => Err(GenErrorV::Message(m)),
                Ok(x) => children_code(cx, cs, i + 1, chain + " .dyn_text(move || ( "@ + x + " ).to_string())"@, slots),
            },
            NodeV::Element(el) => match static_attr(el, "v-for"@) {
                Some(fe) => match for_code(cx, el, fe, slots) {
                    Err(e) => Err(e),
                    Ok((p, s1)) => children_code(cx, cs, i + 1, chain + " "@ + p, s1),
                },
                None => if static_attr(el, "v-if"@) is Some {
                    let j = chain_end(cs, i + 1);
                    if i < j <= cs.len() {
                        match if_chain_code(cx, cs, i, j, i, Seq::<char>::empty(), Seq::<char>::empty(), "::core::option::Option::None"@, slots) {
                            Err(e) => Err(e),
                            Ok((p, s1)) => children_code(cx, cs, j, chain + " "@ + p, s1),
                        }
                    } else {
                        Err(GenErrorV::Message(seq![]))
                    }
                } else if static_attr(el, "v-else-if"@) is Some {
                    Err(GenErrorV::Message("v-else-if without a matching v-if"@))
                } else if static_attr(el, "v-else"@) is Some {
                    Err(GenErrorV::Message("v-else without a matching v-if"@))
                } else {
                    match element_code(cx, el, slots) {
                        Err(e) => Err(e),
                        Ok((c, s1)) => children_code(cx, cs, i + 1, chain + " .child( "@ + c + " )"@, s1),
                    }
                },
            },
        }
    }
}

/// The `dyn_switch` for the `v-if` chain `cs[i..j]`, from arm `k` on: `sel`
/// holds the selector arms so far, `pushes` the view pushes, `tail` the
/// selector's final value.
pub open spec fn if_chain_code(
    cx: GenCtx,
    cs: Seq<NodeV>,
    i: int,
    j: int,
    k: int,
    sel: Seq<char>,
    pushes: Seq<char>,
    tail: Seq<char>,
    slots: Slots,
) -> Result<(Seq<char>, Slots), GenErrorV>
    decreases cs, cs.len() - k,
{
    if k < 0 || k >= j || k >= cs.len() {
        Ok((
            ".dyn_switch(move || { "@ + sel + tail
                + " }, { let mut __views = ::vue_rs_dom::switch_views(&__backend); "@ + pushes + "__views }, )"@,
            slots,
        ))
    } else {
        match cs[k] {
            NodeV::Element(el) => match element_code(cx, el, slots) {
                Err(e) => Err(e),
                Ok((view, s1)) => {
                    let push = "__views.push(::std::boxed::Box::new(move |__backend| "@ + view + " )); "@;
                    match arm_cond(cs, i, k) {
                        Some(c) => match expr_code(c) {
                            Err(m) => Err(GenErrorV::Message(m)),
                            Ok(x) => if_chain_code(
                                cx,
                                cs,
                                i,
                                j,
                                k + 1,
                                sel + "if ( "@ + x + " ) { return ::core::option::Option::Some("@ + usize_lit(
                                    (k - i) as usize,
                                ) + "); } "@,
                                pushes + push,
                                tail,
                                s1,
                            ),
                        },
                        None => if_chain_code(
                            cx,
                            cs,
                            i,
                            j,
                            k + 1,
                            sel,
                            pushes + push,
                            "::core::option::Option::Some("@ + usize_lit((k - i) as usize) + ")"@,
                            s1,
                        ),
                    }
                },
            },
            _ => Err(GenErrorV::Message(seq![])),
        }
    }
}

/// A keyed `v-for` row list for the element `el` carrying `v-for="fe"`.
pub open spec fn for_code(cx: GenCtx, el: ElementV, fe: Seq<char>, slots: Slots) -> Result<(Seq<char>, Slots), GenErrorV>
    decreases el, el.children.len() + 6,
{
    match for_parts(fe) {
        None => Err(GenErrorV::Message("v-for must be `item in items`, got `"@ + fe + "`"@)),
        Some((binding, iter_src)) => match expr_code(iter_src) {
            Err(m) => Err(GenErrorV::Message(m)),
            Ok(iterable) => match dyn_attr(el, "key"@) {
                None => Err(GenErrorV::Message("v-for requires a :key binding"@)),
                Some(k) => match expr_code(k) {
                    Err(m) => Err(GenErrorV::Message(m)),
                    Ok(key) => match element_code(cx, el, slots) {
                        Err(e) => Err(e),
                        Ok((view, s1)) => match for_call(iterable, key, view, index_binding(binding), lexed(binding)) {
                            Err(m) => Err(GenErrorV::Message(m)),
                            Ok(t) => Ok((t, s1)),
                        },
                    },
                },
            },
        },
    }
}

// --- the template root -------------------------------------------------------------

/// The directive that may not stand on a root-level element, if any.
pub open spec fn root_directive(el: ElementV) -> Option<Seq<char>> {
    if static_attr(el, "v-if"@) is Some {
        Some("v-if"@)
    } else if static_attr(el, "v-else-if"@) is Some {
        Some("v-else-if"@)
    } else if static_attr(el, "v-else"@) is Some {
        Some("v-else"@)
    } else if static_attr(el, "v-for"@) is Some {
        Some("v-for"@)
    } else {
        None
    }
}

/// The fragment members for the root nodes from `k` on, after `acc`.
pub open spec fn members_code(cx: GenCtx, nodes: Seq<NodeV>, k: int, acc: Seq<Seq<char>>, slots: Slots) -> Result<
    (Seq<Seq<char>>, Slots),
    GenErrorV,
>
    decreases nodes.len() - k,
{
    if k < 0 || k >= nodes.len() {
        Ok((acc, slots))
    } else {
        match nodes[k] {
            NodeV::StaticText(t) => members_code(
                cx,
                nodes,
                k + 1,
                acc.push("::vue_rs_dom::Backend::create_text(&__backend, "@ + str_lit(t) + ")"@),
                slots,
            ),
            NodeV::DynText(e) => match expr_code(e) {
                Err(m) => Err(GenErrorV::Message(m)),
                Ok(x) => members_code(
                    cx,
                    nodes,
                    k + 1,
                    acc.push("::vue_rs_dom::dyn_text_node(&__backend, move || ( "@ + x + " ).to_string())"@),
                    slots,
                ),
            },
            NodeV::Element(el) => match root_directive(el) {
                Some(d) => Err(GenErrorV::Message("`"@ + d + "` is not supported at the template root; wrap it in an element"@)),
                None => match element_code(cx, el, slots) {
                    Err(e) => Err(e),
                    Ok((t, s1)) => members_code(cx, nodes, k + 1, acc.push(t), s1),
                },
            },
        }
    }
}

/// The builder expression for a template's root nodes: a single root element
/// lowers directly; anything else becomes a fragment.
pub open spec fn root_code(cx: GenCtx, nodes: Seq<NodeV>, slots: Slots) -> Result<(Seq<char>, Slots), GenErrorV> {
    if nodes.len() == 0 {
        Err(GenErrorV::Message("template must not be empty"@))
    } else if nodes.len() == 1 && nodes[0] is Element {
        element_code(cx, nodes[0]->Element_0, slots)
    } else {
        match members_code(cx, nodes, 0, seq![], slots) {
            Err(e) => Err(e),
            Ok((ms, s1)) => Ok((
                "::vue_rs_dom::Backend::create_fragment(&__backend, ::std::vec![ "@ + join_seq(ms, ", "@) + " ], )"@,
                s1,
            )),
        }
    }
}

} // verus!

verus! {

// ---------------------------------------------------------------------------
// The generator
// ---------------------------------------------------------------------------

/// Why code generation stopped.
pub enum GenError {
    /// A compile error, with its message.
    Message(String),
    /// A name that `proc_macro2::Ident::new` refuses (it panics on it).
    InvalidIdent(String),
}

impl View for GenError {
    type V = GenErrorV;

    open spec fn view(&self) -> GenErrorV {
        match self {
            GenError::Message(m) => GenErrorV::Message(m@),
            GenError::InvalidIdent(s) => GenErrorV::InvalidIdent(s@),
        }
    }
}

/// A radio input's value: static text, or a parsed `:value` expression.
pub enum RadioValue {
    Static(String),
    Dyn(String),
}

impl View for RadioValue {
    type V = RadioV;

    open spec fn view(&self) -> RadioV {
        match self {
            RadioValue::Static(s) => RadioV::Static(s@),
            RadioValue::Dyn(e) => RadioV::Dyn(e@),
        }
    }
}

/// The view of a text result.
pub open spec fn res_view(r: Result<String, String>) -> Result<Seq<char>, Seq<char>> {
    match r {
        Ok(t) => Ok(t@),
        Err(e) => Err(e@),
    }
}

/// The view of an optional string slice.
pub open spec fn opt_view(o: Option<&str>) -> Option<Seq<char>> {
    match o {
        Some(s) => Some(s@),
        None => None,
    }
}

/// The view of an optional radio value.
pub open spec fn radio_opt_view(o: Option<&RadioValue>) -> Option<RadioV> {
    match o {
        Some(r) => Some(r@),
        None => None,
    }
}

/// The view of a generator result, with the slots recorded so far.
pub open spec fn out_view(r: Result<String, GenError>, slots: Slots) -> Result<(Seq<char>, Slots), GenErrorV> {
    match r {
        Ok(t) => Ok((t@, slots)),
        Err(e) => Err(e@),
    }
}

} // verus!

verus! {

/// The `.lazy` / `.trim` / `.number` flags of `v-model`'s modifiers (the
/// pieces after the first of `mods`).
fn model_flags(mods: &Vec<Vec<char>>) -> (r: Result<(bool, bool, bool), String>)
    requires
        mods@.len() >= 1,
    ensures
        match r {
            Ok(f) => model_mods(views(mods@), 1, false, false, false) == Ok::<_, Seq<char>>(f),
            Err(e) => model_mods(views(mods@), 1, false, false, false) == Err::<(bool, bool, bool), _>(e@),
        },
{
    let ghost ms = views(mods@);
    let mut lazy = false;
    let mut trim = false;
    let mut number = false;
    let mut k: usize = 1;
    while k < mods.len()
        invariant
            1 <= k <= mods@.len(),
            ms == views(mods@),
            model_mods(ms, 1, false, false, false) == model_mods(ms, k as int, lazy, trim, number),
        decreases mods@.len() - k,
    {
        let m = string_of(&mods[k]);
        assert(m@ == ms[k as int]);
        if str_eq(m.as_str(), "lazy") {
            lazy = true;
        } else if str_eq(m.as_str(), "trim") {
            trim = true;
        } else if str_eq(m.as_str(), "number") {
            number = true;
        } else {
            return Err(cat3("unknown v-model modifier `.", m.as_str(), "`"));
        }
        k += 1;
    }
    Ok((lazy, trim, number))
}

/// `v-model` on an element: per input kind, and refined by its modifiers.
fn vmodel(name: &str, value: &str, tag: &str, input_type: Option<&str>, radio: Option<&RadioValue>) -> (r: Result<
    String,
    String,
>)
    ensures
        res_view(r) == vmodel_code(name@, value@, tag@, opt_view(input_type), radio_opt_view(radio)),
{
    let model = match parse_expr(value) {
        Err(m) => return Err(m),
        Ok(t) => t,
    };
    let mods = split_chars(&chars_of(name), '.');
    let ghost ms = views(mods@);
    proof { lemma_split_nonempty(name@, '.'); }
    let is_checkbox = match input_type {
        Some(t) => str_eq(t, "checkbox"),
        None => false,
    };
    let is_radio = match input_type {
        Some(t) => str_eq(t, "radio"),
        None => false,
    };
    if is_checkbox {
        if mods.len() > 1 {
            let m = string_of(&mods[1]);
            return Err(cat3("v-model modifier `.", m.as_str(), "` is not supported on a checkbox"));
        }
        let mut s = String::from_str(".dyn_bool_prop(\"checked\", move || ( ");
        s.append(model.as_str());
        s.append(" ).get()) .on_value(\"change\", move |__value| ( ");
        s.append(model.as_str());
        s.append(" ).set(__value == \"true\"))");
        return Ok(s);
    }
    if is_radio {
        if mods.len() > 1 {
            let m = string_of(&mods[1]);
            return Err(cat3("v-model modifier `.", m.as_str(), "` is not supported on a radio"));
        }
        let rv = match radio {
            None => return Err(String::from_str("`v-model` on a radio input requires a `value` or `:value` attribute")),
            Some(rv) => rv,
        };
        let mut checked = String::from_str("( ");
        checked.append(model.as_str());
        let set_val = match rv {
            RadioValue::Static(sv) => {
                let lit = string_literal(sv.as_str());
                checked.append(" ).get() == ");
                checked.append(lit.as_str());
                cat(lit.as_str(), ".to_string()")
            },
            RadioValue::Dyn(e) => {
                checked.append(" ).get() == ( ");
                checked.append(e.as_str());
                checked.append(" )");
                e.clone()
            },
        };
        let mut s = String::from_str(".dyn_bool_prop(\"checked\", move || ");
        s.append(checked.as_str());
        s.append(" ) .on_value(\"change\", move |_| ( ");
        s.append(model.as_str());
        s.append(" ).set( ");
        s.append(set_val.as_str());
        s.append(" ))");
        return Ok(s);
    }
    let (lazy, trim, number) = match model_flags(&mods) {
        Err(m) => return Err(m),
        Ok(f) => f,
    };
    let select = str_eq(tag, "select");
    let textarea = str_eq(tag, "textarea");
    let event = if lazy || select { "change" } else { "input" };
    let text = if trim { "__value.trim()" } else { "__value" };
    let set_arg = if number {
        let mut a = String::from_str("match ");
        a.append(text);
        a.append(" .parse() { ::core::result::Result::Ok(__n) => __n, ::core::result::Result::Err(_) => ( ");
        a.append(model.as_str());
        a.append(" ).get(), }");
        a
    } else {
        cat(text, " .to_string()")
    };
    let mut s = if textarea || select {
        String::from_str(".dyn_prop(\"value\", move || (( ")
    } else {
        String::from_str(".dyn_attr(\"value\", move || (( ")
    };
    s.append(model.as_str());
    s.append(" ).get()).to_string())");
    s.append(" .on_value(");
    s.append(string_literal(event).as_str());
    s.append(", move |__value| ( ");
    s.append(model.as_str());
    s.append(" ).set( ");
    s.append(set_arg.as_str());
    s.append(" ))");
    Ok(s)
}

} // verus!

verus! {

/// `v-show`: toggle `display: none` onto the element's base style.
fn vshow(value: &str, base: Option<&str>) -> (r: Result<String, String>)
    ensures
        res_view(r) == vshow_code(value@, opt_view(base)),
{
    let cond = match parse_expr(value) {
        Err(m) => return Err(m),
        Ok(t) => t,
    };
    let b = match base {
        Some(x) => x,
        None => "::std::string::String::new()",
    };
    let mut s = String::from_str(".dyn_attr(\"style\", move || { let __base: ::std::string::String = ");
    s.append(b);
    s.append(" ; if ( ");
    s.append(cond.as_str());
    s.append(
        " ) { __base } else if __base.is_empty() { \"display: none\".to_string() } else { ::std::format!(\"{}; display: none\", __base) } })",
    );
    Ok(s)
}

/// The `.prop` / `.attr` / `.camel` flags of a binding's modifiers (the
/// pieces after the first of `parts`).
fn bind_flags(parts: &Vec<Vec<char>>, name: &str) -> (r: Result<(bool, bool, bool), String>)
    requires
        parts@.len() >= 1,
    ensures
        match r {
            Ok(f) => bind_mods(views(parts@), 1, name@, false, false, false) == Ok::<_, Seq<char>>(f),
            Err(e) => bind_mods(views(parts@), 1, name@, false, false, false) == Err::<(bool, bool, bool), _>(e@),
        },
{
    let ghost ms = views(parts@);
    let mut prop = false;
    let mut attr = false;
    let mut camel = false;
    let mut k: usize = 1;
    while k < parts.len()
        invariant
            1 <= k <= parts@.len(),
            ms == views(parts@),
            bind_mods(ms, 1, name@, false, false, false) == bind_mods(ms, k as int, name@, prop, attr, camel),
        decreases parts@.len() - k,
    {
        let m = string_of(&parts[k]);
        assert(m@ == ms[k as int]);
        if str_eq(m.as_str(), "prop") {
            prop = true;
        } else if str_eq(m.as_str(), "attr") {
            attr = true;
        } else if str_eq(m.as_str(), "camel") {
            camel = true;
        } else {
            let mut e = cat3("unknown bind modifier `.", m.as_str(), "` on `:");
            e.append(name);
            e.append("`");
            return Err(e);
        }
        k += 1;
    }
    Ok((prop, attr, camel))
}

/// A bound attribute `:name[.modifiers]="expr"`, or a dynamic `:[arg]="expr"`.
fn bind(name: &str, expr: &str) -> (r: Result<String, String>)
    ensures
        res_view(r) == bind_code(name@, expr@),
{
    match dynamic_arg(&chars_of(name)) {
        Some((arg, mods)) => {
            if mods.len() > 0 {
                return Err(cat3("modifiers are not supported on dynamic attribute arguments (`:", name, "`)"));
            }
            let a = match parse_expr(string_of(&arg).as_str()) {
                Err(m) => return Err(m),
                Ok(t) => t,
            };
            let v = match parse_expr(expr) {
                Err(m) => return Err(m),
                Ok(t) => t,
            };
            let mut s = String::from_str(".dyn_attr_named(move || ( ");
            s.append(a.as_str());
            s.append(" ).to_string(), move || ( ");
            s.append(v.as_str());
            s.append(" ).to_string())");
            Ok(s)
        },
        None => {
            let parts = split_chars(&chars_of(name), '.');
            proof { lemma_split_nonempty(name@, '.'); }
            let (prop, attr, camel) = match bind_flags(&parts, name) {
                Err(m) => return Err(m),
                Ok(f) => f,
            };
            if prop && attr {
                return Err(cat3("`:", name, "` cannot be both `.prop` and `.attr`"));
            }
            let base = string_of(&parts[0]);
            assert(base@ == views(parts@)[0]);
            let bound = if camel { camelize(base.as_str()) } else { base };
            let e = match parse_expr(expr) {
                Err(m) => return Err(m),
                Ok(t) => t,
            };
            let mut s = if prop { String::from_str(".dyn_prop(") } else { String::from_str(".dyn_attr(") };
            s.append(string_literal(bound.as_str()).as_str());
            s.append(", move || ( ");
            s.append(e.as_str());
            s.append(" ).to_string())");
            Ok(s)
        },
    }
}

/// Build the `EventOptions` literal for an event's modifiers. Only set fields
/// are written (the rest fall back to `..Default::default()`). Key and
/// mouse-button modifiers are told apart by the event name; an unknown modifier
/// is an error, so typos surface early.
pub fn build_event_options(event: &str, modifiers: &Vec<Vec<char>>, full: &str) -> (r: Result<String, String>)
    ensures
        res_view(r) == opts_code(event@, views(modifiers@), full@, 0, Seq::<char>::empty(), seq![], seq![]),
{
    let ghost ms = views(modifiers@);
    let mut fields = String::new();
    let mut keys: Vec<String> = Vec::new();
    let mut buttons: Vec<String> = Vec::new();
    let keyboard = is_keyboard_event(event);
    let mouse = is_mouse_event(event);
    let mut k: usize = 0;
    assert(string_views(keys@) =~= Seq::<Seq<char>>::empty());
    assert(string_views(buttons@) =~= Seq::<Seq<char>>::empty());
    while k < modifiers.len()
        invariant
            k <= modifiers@.len(),
            ms == views(modifiers@),
            keyboard == keyboard_event(event@),
            mouse == mouse_event(event@),
            opts_code(event@, ms, full@, 0, Seq::<char>::empty(), seq![], seq![]) == opts_code(
                event@,
                ms,
                full@,
                k as int,
                fields@,
                string_views(keys@),
                string_views(buttons@),
            ),
        decreases modifiers@.len() - k,
    {
        let m = string_of(&modifiers[k]);
        assert(m@ == ms[k as int]);
        match modifier_flag(m.as_str()) {
            Some(f) => {
                fields.append(f);
                fields.append(", ");
            },
            None => {
                let b = if mouse { mouse_button(m.as_str()) } else { None };
                match b {
                    Some(b) => {
                        let ghost before = buttons@;
                        buttons.push(u16_literal(b));
                        assert(string_views(buttons@) =~= string_views(before).push(u16_lit(b)));
                    },
                    None => {
                        let key = if keyboard { key_name(m.as_str()) } else { None };
                        match key {
                            Some(key) => {
                                let ghost before = keys@;
                                keys.push(string_literal(key));
                                assert(string_views(keys@) =~= string_views(before).push(str_lit(key@)));
                            },
                            None => {
                                let mut e = cat3("unknown event modifier `.", m.as_str(), "` on `@");
                                e.append(full);
                                e.append("`");
                                return Err(e);
                            },
                        }
                    },
                }
            },
        }
        k += 1;
    }
    let mut s = String::from_str("::vue_rs_dom::EventOptions { ");
    s.append(fields.as_str());
    let keys_part = if keys.len() == 0 {
        String::new()
    } else {
        let mut p = String::from_str("keys: &[ ");
        p.append(join_strings(&keys, ", ").as_str());
        p.append(" ], ");
        p
    };
    let buttons_part = if buttons.len() == 0 {
        String::new()
    } else {
        let mut p = String::from_str("buttons: &[ ");
        p.append(join_strings(&buttons, ", ").as_str());
        p.append(" ], ");
        p
    };
    s.append(keys_part.as_str());
    s.append(buttons_part.as_str());
    s.append(".. ::core::default::Default::default() }");
    Ok(s)
}

/// An event listener `@name[.modifiers]="handler"`, or a dynamic `@[arg]`.
fn event(name: &str, handler: &str) -> (r: Result<String, String>)
    ensures
        res_view(r) == event_code(name@, handler@),
{
    match dynamic_arg(&chars_of(name)) {
        Some((arg, mods)) => {
            if mods.len() > 0 {
                return Err(cat3("modifiers are not supported on dynamic event arguments (`@", name, "`)"));
            }
            let a = match parse_expr(string_of(&arg).as_str()) {
                Err(m) => return Err(m),
                Ok(t) => t,
            };
            let h = match parse_expr(handler) {
                Err(m) => return Err(m),
                Ok(t) => t,
            };
            let mut s = String::from_str(".on_named(move || ( ");
            s.append(a.as_str());
            s.append(" ).to_string(), move || { ");
            s.append(h.as_str());
            s.append(" })");
            Ok(s)
        },
        None => {
            let h = match parse_expr(handler) {
                Err(m) => return Err(m),
                Ok(t) => t,
            };
            let mut parts = split_chars(&chars_of(name), '.');
            proof { lemma_split_nonempty(name@, '.'); }
            let ghost ps = views(parts@);
            let ev = string_of(&parts[0]);
            assert(ev@ == ps[0]);
            if parts.len() <= 1 {
                let mut s = String::from_str(".on(");
                s.append(string_literal(ev.as_str()).as_str());
                s.append(", move || { ");
                s.append(h.as_str());
                s.append(" })");
                return Ok(s);
            }
            let _first = parts.remove(0);
            assert(views(parts@) =~= ps.drop_first());
            let opts = match build_event_options(ev.as_str(), &parts, name) {
                Err(m) => return Err(m),
                Ok(t) => t,
            };
            let mut s = String::from_str(".on_opts(");
            s.append(string_literal(ev.as_str()).as_str());
            s.append(", ");
            s.append(opts.as_str());
            s.append(", move || { ");
            s.append(h.as_str());
            s.append(" })");
            Ok(s)
        },
    }
}

/// One attribute of a plain element, given the element's base style (when
/// `v-show` owns `style`), its tag, its static `type` and its radio value.
pub fn gen_attr(
    attr: &Attr,
    base_style: Option<&str>,
    tag: &str,
    input_type: Option<&str>,
    radio_value: Option<&RadioValue>,
) -> (r: Result<String, String>)
    ensures
        res_view(r) == attr_code(attr@, opt_view(base_style), tag@, opt_view(input_type), radio_opt_view(radio_value)),
{
    match attr {
        Attr::Static { name, value } => {
            let n = name.as_str();
            if str_eq(n, "v-model") || str_starts_with(n, "v-model.") {
                vmodel(n, value.as_str(), tag, input_type, radio_value)
            } else if str_eq(n, "v-show") {
                vshow(value.as_str(), base_style)
            } else if str_eq(n, "v-html") {
                let e = match parse_expr(value.as_str()) {
                    Err(m) => return Err(m),
                    Ok(t) => t,
                };
                Ok(cat3(".dyn_inner_html(move || ", e.as_str(), " )"))
            } else if str_eq(n, "v-text") {
                let e = match parse_expr(value.as_str()) {
                    Err(m) => return Err(m),
                    Ok(t) => t,
                };
                Ok(cat3(".dyn_text(move || ( ", e.as_str(), " ).to_string())"))
            } else if str_eq(n, "ref") {
                match parse_ident(value.as_str()) {
                    Err(_) => Err(cat("`ref` value must be an identifier, got ", debug_str(value.as_str()).as_str())),
                    Ok(b) => Ok(cat3(".node_ref(& ", b.as_str(), " )")),
                }
            } else {
                let mut s = String::from_str(".attr(");
                s.append(string_literal(n).as_str());
                s.append(", ");
                s.append(string_literal(value.as_str()).as_str());
                s.append(")");
                Ok(s)
            }
        },
        Attr::Dyn { name, expr } => bind(name.as_str(), expr.as_str()),
        Attr::Event { name, handler } => event(name.as_str(), handler.as_str()),
    }
}

} // verus!

verus! {

/// `chain` followed by a `.push(elem)` for each element.
fn push_elems(elems: &Vec<String>, chain: String) -> (r: String)
    ensures
        r@ == push_all(string_views(elems@), 0, chain@),
{
    let ghost es = string_views(elems@);
    let mut chain = chain;
    let ghost c0 = chain@;
    let mut k: usize = 0;
    while k < elems.len()
        invariant
            k <= elems@.len(),
            es == string_views(elems@),
            push_all(es, 0, c0) == push_all(es, k as int, chain@),
        decreases elems@.len() - k,
    {
        assert(es[k as int] == elems@[k as int]@);
        chain.append(" .push( ");
        chain.append(elems[k].as_str());
        chain.append(" )");
        k += 1;
    }
    chain
}

/// The list builder's start, with the static value pushed first.
fn list_start_exec(ty: &str, static_value: Option<&str>) -> (r: String)
    ensures
        r@ == list_start(ty@, opt_view(static_value)),
{
    let mut c = String::from_str(ty);
    match static_value {
        Some(v) => {
            c.append(" .push(");
            c.append(string_literal(v).as_str());
            c.append(")");
        },
        None => {},
    }
    c
}

/// Build the merged `class` attribute for an element carrying a `:class`,
/// with the static `class` (if any) as the leading fragment. Object entries
/// become `push_if`; array elements and a plain expression become `push`.
pub fn gen_class(static_class: Option<&str>, dyn_expr: &str) -> (r: Result<String, String>)
    ensures
        res_view(r) == class_code(opt_view(static_class), dyn_expr@),
{
    let c1 = list_start_exec("::vue_rs_dom::ClassList::new()", static_class);
    let chain = match class_syntax(dyn_expr) {
        ClassSyntax::Object => {
            let entries = match parse_class_object(dyn_expr) {
                Err(m) => return Err(m),
                Ok(v) => v,
            };
            let ghost es = pairs_view(entries@);
            let mut chain = c1;
            let mut k: usize = 0;
            while k < entries.len()
                invariant
                    k <= entries@.len(),
                    es == pairs_view(entries@),
                    class_object(dyn_expr@) == Ok::<_, Seq<char>>(es),
                    class_shape(dyn_expr@) is Object,
                    class_code(opt_view(static_class), dyn_expr@) == (match push_ifs(es, k as int, chain@) {
                        Err(m) => Err(m),
                        Ok(c) => Ok(".dyn_attr(\"class\", move || "@ + c + " .finish())"@),
                    }),
                decreases entries@.len() - k,
            {
                let (name, cond) = &entries[k];
                assert(es[k as int] == (name@, cond@));
                let c = match parse_expr(cond.as_str()) {
                    Err(m) => return Err(m),
                    Ok(t) => t,
                };
                chain.append(" .push_if(");
                chain.append(string_literal(name.as_str()).as_str());
                chain.append(", ");
                chain.append(c.as_str());
                chain.append(" )");
                k += 1;
            }
            chain
        },
        ClassSyntax::Array => {
            let elems = match parse_array_elems(dyn_expr) {
                Err(e) => {
                    let mut m = cat3("invalid `:class` array `", dyn_expr, "`: ");
                    m.append(e.as_str());
                    return Err(m);
                },
                Ok(v) => v,
            };
            proof { assert(elems@.map_values(|x: String| x@) =~= string_views(elems@)); }
            push_elems(&elems, c1)
        },
        ClassSyntax::Plain => {
            let e = match parse_expr(dyn_expr) {
                Err(m) => return Err(m),
                Ok(t) => t,
            };
            let mut chain = c1;
            chain.append(" .push( ");
            chain.append(e.as_str());
            chain.append(" )");
            chain
        },
    };
    Ok(cat3(".dyn_attr(\"class\", move || ", chain.as_str(), " .finish())"))
}

/// The expression yielding an element's merged `style` string from its static
/// `style` and `:style` binding (object, array or plain), or `None` when it
/// has neither.
pub fn style_value(static_style: Option<&str>, dyn_style: Option<&str>) -> (r: Result<Option<String>, String>)
    ensures
        match r {
            Ok(Some(t)) => style_code(opt_view(static_style), opt_view(dyn_style)) == Ok::<_, Seq<char>>(Some(t@)),
            Ok(None) => style_code(opt_view(static_style), opt_view(dyn_style)) == Ok::<_, Seq<char>>(None::<Seq<char>>),
            Err(e) => style_code(opt_view(static_style), opt_view(dyn_style)) == Err::<Option<Seq<char>>, _>(e@),
        },
{
    if static_style.is_none() && dyn_style.is_none() {
        return Ok(None);
    }
    let c1 = list_start_exec("::vue_rs_dom::StyleList::new()", static_style);
    let chain = match dyn_style {
        None => c1,
        Some(expr) => match style_syntax(expr) {
            StyleSyntax::Object => {
                let entries = match parse_style_object(expr) {
                    Err(m) => return Err(m),
                    Ok(v) => v,
                };
                let ghost es = pairs_view(entries@);
                let mut chain = c1;
                let mut k: usize = 0;
                while k < entries.len()
                    invariant
                        k <= entries@.len(),
                        es == pairs_view(entries@),
                        style_object(expr@) == Ok::<_, Seq<char>>(es),
                        style_code(opt_view(static_style), opt_view(dyn_style)) == (match push_props(
                            es,
                            k as int,
                            chain@,
                        ) {
                            Err(m) => Err(m),
                            Ok(c) => Ok(Some(c + " .finish()"@)),
                        }),
                    decreases entries@.len() - k,
                {
                    let (prop, value) = &entries[k];
                    assert(es[k as int] == (prop@, value@));
                    let v = match parse_expr(value.as_str()) {
                        Err(m) => return Err(m),
                        Ok(t) => t,
                    };
                    chain.append(" .push_prop(");
                    chain.append(string_literal(prop.as_str()).as_str());
                    chain.append(", ( ");
                    chain.append(v.as_str());
                    chain.append(" ).to_string())");
                    k += 1;
                }
                chain
            },
            StyleSyntax::Array => {
                let elems = match parse_array_elems(expr) {
                    Err(e) => {
                        let mut m = cat3("invalid `:style` array `", expr, "`: ");
                        m.append(e.as_str());
                        return Err(m);
                    },
                    Ok(v) => v,
                };
                proof { assert(elems@.map_values(|x: String| x@) =~= string_views(elems@)); }
                push_elems(&elems, c1)
            },
            StyleSyntax::Plain => {
                let e = match parse_expr(expr) {
                    Err(m) => return Err(m),
                    Ok(t) => t,
                };
                let mut chain = c1;
                chain.append(" .push( ");
                chain.append(e.as_str());
                chain.append(" )");
                chain
            },
        },
    };
    Ok(Some(cat(chain.as_str(), " .finish()")))
}

} // verus!

verus! {

/// The view of an optional string.
pub open spec fn opt_string_view(o: Option<String>) -> Option<Seq<char>> {
    match o {
        Some(s) => Some(s@),
        None => None,
    }
}

/// The view of an optional radio value.
pub open spec fn radio_own_view(o: Option<RadioValue>) -> Option<RadioV> {
    match o {
        Some(r) => Some(r@),
        None => None,
    }
}

/// Borrow the string inside an option.
fn opt_str(o: &Option<String>) -> (r: Option<&str>)
    ensures
        opt_view(r) == opt_string_view(*o),
{
    match o {
        Some(s) => Some(s.as_str()),
        None => None,
    }
}

/// The base style `v-show` folds its toggle into.
fn base_style_exec(el: &Element) -> (r: Result<Option<String>, String>)
    ensures
        match r {
            Ok(b) => base_style_of(element_view(*el)) == Ok::<_, Seq<char>>(opt_string_view(b)),
            Err(e) => base_style_of(element_view(*el)) == Err::<Option<Seq<char>>, _>(e@),
        },
{
    if find_static(el, "v-show").is_some() {
        match style_value(find_static(el, "style"), find_dyn(el, "style")) {
            Err(m) => Err(m),
            Ok(None) => Ok(Some(String::from_str("::std::string::String::new()"))),
            Ok(Some(v)) => Ok(Some(v)),
        }
    } else {
        Ok(None)
    }
}

/// The merged `class` attribute, when there is one.
fn merged_class_exec(el: &Element) -> (r: Result<Option<String>, String>)
    ensures
        match r {
            Ok(c) => merged_class_of(element_view(*el)) == Ok::<_, Seq<char>>(opt_string_view(c)),
            Err(e) => merged_class_of(element_view(*el)) == Err::<Option<Seq<char>>, _>(e@),
        },
{
    match find_dyn(el, "class") {
        Some(expr) => {
            let plain = match class_syntax(expr) {
                ClassSyntax::Plain => true,
                _ => false,
            };
            if find_static(el, "class").is_some() || !plain {
                match gen_class(find_static(el, "class"), expr) {
                    Err(m) => Err(m),
                    Ok(c) => Ok(Some(c)),
                }
            } else {
                Ok(None)
            }
        },
        None => Ok(None),
    }
}

/// The merged `style` attribute, when there is one and `v-show` does not own
/// `style`.
fn merged_style_exec(el: &Element, base: &Option<String>) -> (r: Result<Option<String>, String>)
    ensures
        match r {
            Ok(c) => merged_style_of(element_view(*el), opt_string_view(*base)) == Ok::<_, Seq<char>>(
                opt_string_view(c),
            ),
            Err(e) => merged_style_of(element_view(*el), opt_string_view(*base)) == Err::<Option<Seq<char>>, _>(e@),
        },
{
    if base.is_some() {
        return Ok(None);
    }
    match find_dyn(el, "style") {
        Some(expr) => {
            let plain = match style_syntax(expr) {
                StyleSyntax::Plain => true,
                _ => false,
            };
            if find_static(el, "style").is_some() || !plain {
                match style_value(find_static(el, "style"), Some(expr)) {
                    Err(m) => Err(m),
                    Ok(None) => Ok(None),
                    Ok(Some(v)) => Ok(Some(cat3(".dyn_attr(\"style\", move || ", v.as_str(), " )"))),
                }
            } else {
                Ok(None)
            }
        },
        None => Ok(None),
    }
}

/// The static `type` of an `<input>`.
fn input_type_exec(el: &Element) -> (r: Option<&str>)
    ensures
        opt_view(r) == input_type_of(element_view(*el)),
{
    if str_eq(el.tag.as_str(), "input") {
        find_static(el, "type")
    } else {
        None
    }
}

/// A radio input's value, captured for its `v-model`.
fn radio_exec(el: &Element) -> (r: Result<Option<RadioValue>, String>)
    ensures
        match r {
            Ok(v) => radio_of(element_view(*el)) == Ok::<_, Seq<char>>(radio_own_view(v)),
            Err(e) => radio_of(element_view(*el)) == Err::<Option<RadioV>, _>(e@),
        },
{
    let is_radio = match input_type_exec(el) {
        Some(t) => str_eq(t, "radio"),
        None => false,
    };
    if !is_radio {
        return Ok(None);
    }
    match find_static(el, "value") {
        Some(s) => Ok(Some(RadioValue::Static(String::from_str(s)))),
        None => match find_dyn(el, "value") {
            Some(e) => match parse_expr(e) {
                Err(m) => Err(m),
                Ok(t) => Ok(Some(RadioValue::Dyn(t))),
            },
            None => Ok(None),
        },
    }
}

/// Append the element's attributes to `chain`: structural ones are skipped,
/// and a merged `class` / `style` is written once, at its first attribute.
fn attrs_exec(
    el: &Element,
    base: &Option<String>,
    mc: &Option<String>,
    ms: &Option<String>,
    radio: &Option<RadioValue>,
    start: String,
) -> (r: Result<String, String>)
    ensures
        res_view(r) == attrs_code(
            element_view(*el),
            opt_string_view(*base),
            opt_string_view(*mc),
            opt_string_view(*ms),
            radio_own_view(*radio),
            0,
            false,
            false,
            start@,
        ),
{
    let ghost ev = element_view(*el);
    let ghost bv = opt_string_view(*base);
    let ghost mcv = opt_string_view(*mc);
    let ghost msv = opt_string_view(*ms);
    let ghost rv = radio_own_view(*radio);
    let ghost goal = attrs_code(ev, bv, mcv, msv, rv, 0, false, false, start@);
    let input_type = input_type_exec(el);
    let radio_ref: Option<&RadioValue> = match radio {
        Some(r) => Some(r),
        None => None,
    };
    let base_ref = opt_str(base);
    let mut chain = start;
    let mut class_done = false;
    let mut style_done = false;
    let mut k: usize = 0;
    while k < el.attrs.len()
        invariant
            k <= el.attrs@.len(),
            ev == element_view(*el),
            ev.attrs == attrs_view(el.attrs@),
            opt_view(input_type) == input_type_of(ev),
            radio_opt_view(radio_ref) == rv,
            opt_view(base_ref) == bv,
            bv == opt_string_view(*base),
            mcv == opt_string_view(*mc),
            msv == opt_string_view(*ms),
            goal == attrs_code(ev, bv, mcv, msv, rv, k as int, class_done, style_done, chain@),
            goal == attrs_code(
                element_view(*el),
                opt_string_view(*base),
                opt_string_view(*mc),
                opt_string_view(*ms),
                radio_own_view(*radio),
                0,
                false,
                false,
                start@,
            ),
        decreases el.attrs@.len() - k,
    {
        let a = &el.attrs[k];
        assert(ev.attrs[k as int] == a@);
        if is_structural(a) {
        } else if base.is_some() && is_style_attr(a) {
        } else if ms.is_some() && is_style_attr(a) {
            if !style_done {
                chain.append(" ");
                match ms {
                    Some(m) => chain.append(m.as_str()),
                    None => {},
                }
            }
            style_done = true;
        } else if mc.is_some() && is_class_attr(a) {
            if !class_done {
                chain.append(" ");
                match mc {
                    Some(m) => chain.append(m.as_str()),
                    None => {},
                }
            }
            class_done = true;
        } else {
            match gen_attr(a, base_ref, el.tag.as_str(), input_type, radio_ref) {
                Err(m) => {
                    return Err(m);
                },
                Ok(p) => {
                    chain.append(" ");
                    chain.append(p.as_str());
                },
            }
        }
        k += 1;
    }
    Ok(chain)
}

} // verus!

verus! {

/// The view of recorded `<slot>` usages.
pub open spec fn slots_of(v: Seq<(String, bool)>) -> Slots {
    v.map_values(|p: (String, bool)| (p.0@, p.1))
}

/// Code generator. When a scope is set (a `<style scoped>` is present), every
/// element gets a `data-v-<scope>` marker attribute so scoped CSS can target
/// it. The slot payloads give each scoped slot's payload type, by slot name;
/// the generator records every `<slot>` the template emits, so the caller can
/// generate the component's `NameSlots` struct.
pub struct Codegen {
    scope: Option<String>,
    slot_payloads: Vec<(String, String)>,
    slots: Vec<(String, bool)>,
}

impl Codegen {
    /// The scope and slot payloads the generator works with.
    pub closed spec fn ctx(&self) -> GenCtx {
        GenCtx { scope: opt_string_view(self.scope), payloads: pairs_view(self.slot_payloads@) }
    }

    /// The `<slot>`s recorded so far.
    pub closed spec fn recorded(&self) -> Slots {
        slots_of(self.slots@)
    }

    /// A generator with an optional scope and no scoped-slot payloads.
    pub fn new(scope: Option<String>) -> (r: Codegen)
        ensures
            r.ctx() == (GenCtx { scope: opt_string_view(scope), payloads: seq![] }),
            r.recorded() == Seq::<(Seq<char>, bool)>::empty(),
    {
        let payloads: Vec<(String, String)> = Vec::new();
        assert(pairs_view(payloads@) =~= Seq::<(Seq<char>, Seq<char>)>::empty());
        Self::with_slot_payloads(scope, payloads)
    }

    /// A generator with an optional scope and the payload type of each scoped
    /// slot (a later entry for a name wins).
    pub fn with_slot_payloads(scope: Option<String>, slot_payloads: Vec<(String, String)>) -> (r: Codegen)
        ensures
            r.ctx() == (GenCtx { scope: opt_string_view(scope), payloads: pairs_view(slot_payloads@) }),
            r.recorded() == Seq::<(Seq<char>, bool)>::empty(),
    {
        let r = Codegen { scope, slot_payloads, slots: Vec::new() };
        assert(r.recorded() =~= Seq::<(Seq<char>, bool)>::empty());
        r
    }

    /// Every `<slot>` the template emitted, as `(name, scoped)` pairs (one per
    /// name, in first-seen order).
    pub fn slots(&self) -> (r: Vec<(String, bool)>)
        ensures
            slots_of(r@) == self.recorded(),
    {
        let mut r: Vec<(String, bool)> = Vec::new();
        let mut i: usize = 0;
        while i < self.slots.len()
            invariant
                i <= self.slots@.len(),
                slots_of(r@) == slots_of(self.slots@.take(i as int)),
            decreases self.slots@.len() - i,
        {
            let (n, b) = &self.slots[i];
            let ghost before = r@;
            r.push((n.clone(), *b));
            assert(self.slots@.take(i + 1) =~= self.slots@.take(i as int).push(self.slots@[i as int]));
            assert(slots_of(r@) =~= slots_of(before).push((n@, *b)));
            assert(slots_of(self.slots@.take(i + 1)) =~= slots_of(self.slots@.take(i as int)).push((n@, *b)));
            i += 1;
        }
        assert(self.slots@.take(self.slots@.len() as int) =~= self.slots@);
        r
    }

    /// Record a `<slot>` usage, ignoring a repeat of a name already seen.
    fn record_slot(&mut self, name: &str, scoped: bool)
        ensures
            final(self).ctx() == old(self).ctx(),
            final(self).recorded() == record(old(self).recorded(), name@, scoped),
    {
        let ghost sv = self.recorded();
        let mut i: usize = 0;
        while i < self.slots.len()
            invariant
                i <= self.slots@.len(),
                sv == slots_of(self.slots@),
                forall|j: int| 0 <= j < i ==> (#[trigger] sv[j]).0 != name@,
            decreases self.slots@.len() - i,
        {
            if str_eq(self.slots[i].0.as_str(), name) {
                assert(sv[i as int].0 == name@);
                return;
            }
            i += 1;
        }
        let ghost before = self.slots@;
        self.slots.push((String::from_str(name), scoped));
        assert(slots_of(self.slots@) =~= slots_of(before).push((name@, scoped)));
    }

    /// The payload type declared for the scoped slot `name`.
    fn payload_for(&self, name: &str) -> (r: Option<String>)
        ensures
            opt_string_view(r) == payload_of(self.ctx(), name@),
    {
        let ghost ps = pairs_view(self.slot_payloads@);
        let mut k: usize = self.slot_payloads.len();
        while k > 0
            invariant
                k <= self.slot_payloads@.len(),
                ps == pairs_view(self.slot_payloads@),
                payload_upto(ps, name@, ps.len() as int) == payload_upto(ps, name@, k as int),
            decreases k,
        {
            let (n, t) = &self.slot_payloads[k - 1];
            assert(ps[k - 1] == (n@, t@));
            if str_eq(n.as_str(), name) {
                return Some(t.clone());
            }
            k -= 1;
        }
        None
    }

    /// A plain element's chain up to (not including) its children.
    fn head(&self, el: &Element) -> (r: Result<String, String>)
        ensures
            res_view(r) == head_code(self.ctx(), element_view(*el)),
    {
        let base = match base_style_exec(el) {
            Err(m) => return Err(m),
            Ok(b) => b,
        };
        let mc = match merged_class_exec(el) {
            Err(m) => return Err(m),
            Ok(c) => c,
        };
        let ms = match merged_style_exec(el, &base) {
            Err(m) => return Err(m),
            Ok(c) => c,
        };
        let radio = match radio_exec(el) {
            Err(m) => return Err(m),
            Ok(v) => v,
        };
        let mut chain = String::from_str("El::new(__backend.clone(), ");
        chain.append(string_literal(el.tag.as_str()).as_str());
        chain.append(")");
        match &self.scope {
            Some(sc) => {
                chain.append(" .attr(");
                chain.append(string_literal(cat("data-v-", sc.as_str()).as_str()).as_str());
                chain.append(", \"\")");
            },
            None => {},
        }
        attrs_exec(el, &base, &mc, &ms, &radio, chain)
    }
}

} // verus!

verus! {

/// The number of element nodes in `cs`, and the index of the first one
/// (`cs.len()` when there is none).
fn elem_scan(cs: &Vec<Node>) -> (r: (usize, usize))
    ensures
        r.0 == elem_count(nodes_view(cs@), 0),
        r.1 == first_elem(nodes_view(cs@), 0),
{
    let ghost csv = nodes_view(cs@);
    proof { lemma_nodes_view_index(cs@); }
    let mut count: usize = 0;
    let mut first: usize = cs.len();
    let mut found = false;
    let mut i: usize = 0;
    while i < cs.len()
        invariant
            i <= cs@.len(),
            csv == nodes_view(cs@),
            csv.len() == cs@.len(),
            forall|j: int| 0 <= j < cs@.len() ==> #[trigger] csv[j] == node_view(cs@[j]),
            count <= i,
            elem_count(csv, 0) == count + elem_count(csv, i as int),
            first_elem(csv, 0) == (if found { first as int } else { first_elem(csv, i as int) }),
            !found ==> first == cs@.len(),
        decreases cs@.len() - i,
    {
        let is_el = match &cs[i] {
            Node::Element(_) => true,
            _ => false,
        };
        assert(is_el == (csv[i as int] is Element));
        if is_el {
            count += 1;
            if !found {
                first = i;
                found = true;
            }
        }
        i += 1;
    }
    assert(elem_count(csv, i as int) == 0);
    if !found {
        assert(first_elem(csv, i as int) == csv.len());
    }
    (count, first)
}

/// Whether `n` is default-slot content of a component (an element that is
/// not a `<template v-slot:..>`).
fn is_default_node(n: &Node) -> (r: bool)
    ensures
        r == default_node(node_view(*n)),
{
    match n {
        Node::Element(c) => !(str_eq(c.tag.as_str(), "template") && slot_directive(c).is_some()),
        _ => false,
    }
}

/// The number of default-slot elements in `cs`, and the index of the first
/// one (`cs.len()` when there is none).
fn default_scan(cs: &Vec<Node>) -> (r: (usize, usize))
    ensures
        r.0 == default_count(nodes_view(cs@), 0),
        r.1 == first_default(nodes_view(cs@), 0),
{
    let ghost csv = nodes_view(cs@);
    proof { lemma_nodes_view_index(cs@); }
    let mut count: usize = 0;
    let mut first: usize = cs.len();
    let mut found = false;
    let mut i: usize = 0;
    while i < cs.len()
        invariant
            i <= cs@.len(),
            csv == nodes_view(cs@),
            csv.len() == cs@.len(),
            forall|j: int| 0 <= j < cs@.len() ==> #[trigger] csv[j] == node_view(cs@[j]),
            count <= i,
            default_count(csv, 0) == count + default_count(csv, i as int),
            first_default(csv, 0) == (if found { first as int } else { first_default(csv, i as int) }),
            !found ==> first == cs@.len(),
        decreases cs@.len() - i,
    {
        if is_default_node(&cs[i]) {
            count += 1;
            if !found {
                first = i;
                found = true;
            }
        }
        i += 1;
    }
    assert(default_count(csv, i as int) == 0);
    if !found {
        assert(first_default(csv, i as int) == csv.len());
    }
    (count, first)
}

/// The end (exclusive) of a `v-if` chain whose further arms start at `from`.
fn chain_end_exec(cs: &Vec<Node>, from: usize) -> (r: usize)
    requires
        from <= cs@.len(),
    ensures
        r == chain_end(nodes_view(cs@), from as int),
        from <= r <= cs@.len(),
{
    let ghost csv = nodes_view(cs@);
    proof { lemma_nodes_view_index(cs@); }
    let mut j = from;
    while j < cs.len()
        invariant
            from <= j <= cs@.len(),
            csv == nodes_view(cs@),
            csv.len() == cs@.len(),
            forall|i: int| 0 <= i < cs@.len() ==> #[trigger] csv[i] == node_view(cs@[i]),
            chain_end(csv, from as int) == chain_end(csv, j as int),
        decreases cs@.len() - j,
    {
        match &cs[j] {
            Node::Element(n) => {
                assert(csv[j as int] == NodeV::Element(element_view(*n)));
                if find_static(n, "v-else-if").is_some() {
                    j += 1;
                } else if find_static(n, "v-else").is_some() {
                    return j + 1;
                } else {
                    return j;
                }
            },
            _ => {
                assert(!(csv[j as int] is Element));
                return j;
            },
        }
    }
    j
}

/// The bound attributes of an element, as `(name, expr)`.
fn dyn_attrs_exec(el: &Element) -> (r: Vec<(String, String)>)
    ensures
        pairs_view(r@) == dyn_attrs_from(element_view(*el).attrs, 0),
{
    let ghost attrs = attrs_view(el.attrs@);
    let mut r: Vec<(String, String)> = Vec::new();
    let mut k: usize = 0;
    assert(pairs_view(r@) =~= Seq::<(Seq<char>, Seq<char>)>::empty());
    while k < el.attrs.len()
        invariant
            k <= el.attrs@.len(),
            attrs == attrs_view(el.attrs@),
            attrs == element_view(*el).attrs,
            dyn_attrs_from(attrs, 0) == pairs_view(r@) + dyn_attrs_from(attrs, k as int),
        decreases el.attrs@.len() - k,
    {
        assert(attrs[k as int] == el.attrs@[k as int]@);
        match &el.attrs[k] {
            Attr::Dyn { name, expr } => {
                let ghost before = r@;
                r.push((name.clone(), expr.clone()));
                assert(pairs_view(r@) =~= pairs_view(before).push((name@, expr@)));
                assert(pairs_view(r@) + dyn_attrs_from(attrs, k + 1) =~= pairs_view(before) + (seq![(name@, expr@)]
                    + dyn_attrs_from(attrs, k + 1)));
            },
            _ => {},
        }
        k += 1;
    }
    assert(pairs_view(r@) + Seq::<(Seq<char>, Seq<char>)>::empty() =~= pairs_view(r@));
    r
}

/// The payload struct fields `name: expr` of a scoped `<slot>`.
fn payload_fields_exec(das: &Vec<(String, String)>) -> (r: Result<Vec<String>, GenError>)
    ensures
        match r {
            Ok(v) => payload_fields(pairs_view(das@), 0, seq![]) == Ok::<_, GenErrorV>(string_views(v@)),
            Err(e) => payload_fields(pairs_view(das@), 0, seq![]) == Err::<Seq<Seq<char>>, _>(e@),
        },
{
    let ghost dv = pairs_view(das@);
    let mut acc: Vec<String> = Vec::new();
    let mut k: usize = 0;
    assert(string_views(acc@) =~= Seq::<Seq<char>>::empty());
    while k < das.len()
        invariant
            k <= das@.len(),
            dv == pairs_view(das@),
            payload_fields(dv, 0, seq![]) == payload_fields(dv, k as int, string_views(acc@)),
        decreases das@.len() - k,
    {
        let (attr, expr) = &das[k];
        assert(dv[k as int] == (attr@, expr@));
        if dynamic_arg(&chars_of(attr.as_str())).is_some() {
            return Err(GenError::Message(cat3("dynamic arguments (`", attr.as_str(), "`) are not supported on `<slot>`")));
        }
        if !valid_ident(attr.as_str()) {
            return Err(GenError::InvalidIdent(attr.clone()));
        }
        let x = match parse_expr(expr.as_str()) {
            Err(m) => return Err(GenError::Message(m)),
            Ok(t) => t,
        };
        let ghost before = acc@;
        acc.push(cat3(attr.as_str(), ": ", x.as_str()));
        assert(string_views(acc@) =~= string_views(before).push(attr@ + ": "@ + x@));
        k += 1;
    }
    Ok(acc)
}

/// The prop and emit fields a component `v-model[:arg]` binds.
fn model_fields_exec(name: &str) -> (r: Result<(String, String), GenError>)
    requires
        component_v_model(name@),
    ensures
        match r {
            Ok((v, u)) => model_fields(name@) == Ok::<_, GenErrorV>((v@, u@)),
            Err(e) => model_fields(name@) == Err::<(Seq<char>, Seq<char>), _>(e@),
        },
{
    proof { reveal_strlit("v-model"); }
    let cs = chars_of(name);
    let n = cs.len();
    let rest = if n >= 7 { slice_chars(&cs, 7, n) } else { Vec::new() };
    assert(rest@ =~= name@.skip("v-model"@.len() as int)) by {
        assert("v-model"@.len() == 7);
        if n < 7 {
            assert(false) by {
                if name@ == "v-model"@ {
                } else if starts_with(name@, "v-model:"@) {
                    reveal_strlit("v-model:");
                } else {
                    reveal_strlit("v-model.");
                }
            }
        }
    }
    let dot = ['.'];
    assert(dot@ =~= seq!['.']);
    if find(&rest, &dot, 0).is_some() {
        return Err(GenError::Message(cat3("modifiers on a component `v-model` are not supported (`", name, "`)")));
    }
    let has_arg = rest.len() > 0 && rest[0] == ':';
    if has_arg && rest.len() == 1 {
        return Err(GenError::Message(String::from_str("a component `v-model:` argument must not be empty")));
    }
    let prop = if has_arg {
        let a = slice_chars(&rest, 1, rest.len());
        assert(a@ =~= rest@.skip(1));
        string_of(&a)
    } else {
        String::from_str("model_value")
    };
    if !valid_ident(prop.as_str()) {
        return Err(GenError::InvalidIdent(prop));
    }
    let update = cat("on_update_", prop.as_str());
    if !valid_ident(update.as_str()) {
        return Err(GenError::InvalidIdent(update));
    }
    Ok((prop, update))
}

/// A component's prop fields, from its attributes.
fn comp_fields_exec(el: &Element) -> (r: Result<Vec<String>, GenError>)
    ensures
        match r {
            Ok(v) => comp_fields(element_view(*el).attrs, 0, seq![]) == Ok::<_, GenErrorV>(string_views(v@)),
            Err(e) => comp_fields(element_view(*el).attrs, 0, seq![]) == Err::<Seq<Seq<char>>, _>(e@),
        },
{
    let ghost attrs = attrs_view(el.attrs@);
    let mut acc: Vec<String> = Vec::new();
    let mut k: usize = 0;
    assert(string_views(acc@) =~= Seq::<Seq<char>>::empty());
    while k < el.attrs.len()
        invariant
            k <= el.attrs@.len(),
            attrs == attrs_view(el.attrs@),
            attrs == element_view(*el).attrs,
            comp_fields(attrs, 0, seq![]) == comp_fields(attrs, k as int, string_views(acc@)),
        decreases el.attrs@.len() - k,
    {
        let a = &el.attrs[k];
        assert(attrs[k as int] == a@);
        if !is_structural(a) {
            match a {
                Attr::Dyn { name, expr } => {
                    if dynamic_arg(&chars_of(name.as_str())).is_some() {
                        return Err(GenError::Message(cat3("dynamic arguments (`", name.as_str(), "`) are not supported on components")));
                    }
                    if !valid_ident(name.as_str()) {
                        return Err(GenError::InvalidIdent(name.clone()));
                    }
                    let x = match parse_expr(expr.as_str()) {
                        Err(m) => return Err(GenError::Message(m)),
                        Ok(t) => t,
                    };
                    let mut f = cat(name.as_str(), ": ::core::convert::Into::into( ");
                    f.append(x.as_str());
                    f.append(" )");
                    let ghost before = acc@;
                    acc.push(f);
                    assert(string_views(acc@) =~= string_views(before).push(
                        name@ + ": ::core::convert::Into::into( "@ + x@ + " )"@,
                    ));
                },
                Attr::Event { name, handler } => {
                    if dynamic_arg(&chars_of(name.as_str())).is_some() {
                        return Err(GenError::Message(cat3("dynamic arguments (`", name.as_str(), "`) are not supported on components")));
                    }
                    let field = cat("on_", name.as_str());
                    if !valid_ident(field.as_str()) {
                        return Err(GenError::InvalidIdent(field));
                    }
                    let x = match parse_expr(handler.as_str()) {
                        Err(m) => return Err(GenError::Message(m)),
                        Ok(t) => t,
                    };
                    let mut f = field;
                    f.append(": ::vue_rs_dom::Callback::new( ");
                    f.append(x.as_str());
                    f.append(" )");
                    let ghost before = acc@;
                    acc.push(f);
                    assert(string_views(acc@) =~= string_views(before).push(
                        "on_"@ + name@ + ": ::vue_rs_dom::Callback::new( "@ + x@ + " )"@,
                    ));
                },
                Attr::Static { name, value } => {
                    if is_component_v_model(name.as_str()) {
                        let (vf, uf) = match model_fields_exec(name.as_str()) {
                            Err(e) => return Err(e),
                            Ok(p) => p,
                        };
                        let x = match parse_expr(value.as_str()) {
                            Err(m) => return Err(GenError::Message(m)),
                            Ok(t) => t,
                        };
                        let mut f1 = vf;
                        f1.append(": ::core::convert::Into::into( ");
                        f1.append(x.as_str());
                        f1.append(" )");
                        let mut f2 = uf;
                        f2.append(": ::vue_rs_dom::Callback::new(move |__v| ( ");
                        f2.append(x.as_str());
                        f2.append(" ).set(__v))");
                        let ghost before = acc@;
                        let ghost v1 = f1@;
                        let ghost v2 = f2@;
                        acc.push(f1);
                        acc.push(f2);
                        assert(string_views(acc@) =~= string_views(before).push(v1).push(v2));
                    } else if str_eq(name.as_str(), "ref") {
                        return Err(GenError::Message(String::from_str("template refs on components (the component instance) are not supported")));
                    } else {
                        if !valid_ident(name.as_str()) {
                            return Err(GenError::InvalidIdent(name.clone()));
                        }
                        let f = cat3(name.as_str(), ": ", string_literal(value.as_str()).as_str());
                        let ghost before = acc@;
                        let ghost fv = f@;
                        acc.push(f);
                        assert(string_views(acc@) =~= string_views(before).push(fv));
                    }
                },
            }
        }
        k += 1;
    }
    Ok(acc)
}

/// The component call with its props struct (when there are fields) and its
/// slots struct with the setters.
fn comp_call_exec(tag: &str, fields: &Vec<String>, setters: &str) -> (r: Result<String, GenError>)
    ensures
        match r {
            Ok(t) => comp_call(tag@, string_views(fields@), setters@) == Ok::<_, GenErrorV>(t@),
            Err(e) => comp_call(tag@, string_views(fields@), setters@) == Err::<Seq<char>, _>(e@),
        },
{
    let p = if fields.len() == 0 {
        String::new()
    } else {
        let props = cat(tag, "Props");
        if !valid_ident(props.as_str()) {
            return Err(GenError::InvalidIdent(props));
        }
        let mut p = String::from_str(", ");
        p.append(tag);
        p.append("Props");
        p.append(" { ");
        p.append(join_strings(fields, ", ").as_str());
        p.append(" }");
        p
    };
    let slots = cat(tag, "Slots");
    if !valid_ident(slots.as_str()) {
        return Err(GenError::InvalidIdent(slots));
    }
    let mut s = cat(tag, "( __backend.clone()");
    s.append(p.as_str());
    s.append(", ");
    s.append(tag);
    s.append("Slots");
    s.append("::for_backend(&__backend)");
    s.append(setters);
    s.append(" )");
    Ok(s)
}

/// A `v-for` binding's `(item, index)` form.
fn index_binding_exec(b: &str) -> (r: Result<Option<(String, String)>, String>)
    ensures
        match r {
            Ok(Some((i, x))) => index_binding(b@) == Ok::<_, Seq<char>>(Some((i@, x@))),
            Ok(None) => index_binding(b@) == Ok::<_, Seq<char>>(None::<(Seq<char>, Seq<char>)>),
            Err(e) => index_binding(b@) == Err::<Option<(Seq<char>, Seq<char>)>, _>(e@),
        },
{
    let cs = chars_of(b);
    let n = cs.len();
    if !(n >= 2 && cs[0] == '(' && cs[n - 1] == ')') {
        return Ok(None);
    }
    let inner = slice_chars(&cs, 1, n - 1);
    let comma = [','];
    assert(comma@ =~= seq![',']);
    match find(&inner, &comma, 0) {
        None => Err(cat3("v-for tuple binding must be `(item, index)`, got `", b, "`")),
        Some(c) => {
            proof { lemma_find_from(inner@, comma@, 0); }
            let item_src = string_of(&trim(&slice_chars(&inner, 0, c)));
            assert(inner@.subrange(0, c as int) =~= inner@.take(c as int));
            let item = match lex_text(item_src.as_str()) {
                Err(e) => return Err(cat("invalid v-for item binding: ", e.as_str())),
                Ok(t) => t,
            };
            let index_src = string_of(&trim(&slice_chars(&inner, c + 1, inner.len())));
            assert(inner@.subrange(c + 1, inner@.len() as int) =~= inner@.skip(c + 1));
            let index = match lex_text(index_src.as_str()) {
                Err(e) => return Err(cat("invalid v-for index binding: ", e.as_str())),
                Ok(t) => t,
            };
            Ok(Some((item, index)))
        },
    }
}

/// A `<slot>`'s render expression.
fn slot_render_exec(name: &str, payload: &str, fallback: &str) -> (r: String)
    ensures
        r@ == slot_render(name@, payload@, fallback@),
{
    let mut s = String::from_str("match &__slots.");
    s.append(name);
    s.append(" { ::core::option::Option::Some(__slot) => { __slot.render(__backend.clone(), ");
    s.append(payload);
    s.append(" ) } ::core::option::Option::None => ");
    s.append(fallback);
    s.append(" , }");
    s
}

} // verus!

verus! {

impl Codegen {
    /// Lower an element: a `<slot>`, a component call, or an `El` builder chain
    /// ending in `.finish()`.
    fn element(&mut self, el: &Element) -> (r: Result<String, GenError>)
        ensures
            final(self).ctx() == old(self).ctx(),
            element_code(old(self).ctx(), element_view(*el), old(self).recorded()) == out_view(r, final(self).recorded()),
        decreases element_view(*el), element_view(*el).children.len() + 5,
    {
        if str_eq(el.tag.as_str(), "slot") {
            return self.slot(el);
        }
        if is_component(el.tag.as_str()) {
            return self.component(el);
        }
        let head = match self.head(el) {
            Err(m) => return Err(GenError::Message(m)),
            Ok(h) => h,
        };
        if find_static(el, "v-html").is_some() || find_static(el, "v-text").is_some() {
            return Ok(cat(head.as_str(), " .finish()"));
        }
        proof { lemma_nodes_view_index(el.children@); }
        match self.children(&el.children, head) {
            Err(e) => Err(e),
            Ok(chain) => Ok(cat(chain.as_str(), " .finish()")),
        }
    }

    /// A `<slot>`: its fallback first, then the slot is recorded and its
    /// payload built.
    fn slot(&mut self, el: &Element) -> (r: Result<String, GenError>)
        ensures
            final(self).ctx() == old(self).ctx(),
            slot_code(old(self).ctx(), element_view(*el), old(self).recorded()) == out_view(r, final(self).recorded()),
        decreases element_view(*el), element_view(*el).children.len() + 4,
    {
        let name: &str = match find_static(el, "name") {
            Some(v) => v,
            None => "default",
        };
        let das = dyn_attrs_exec(el);
        let fallback = match self.fallback(el) {
            Err(e) => return Err(e),
            Ok(f) => f,
        };
        if !valid_ident(name) {
            return Err(GenError::InvalidIdent(String::from_str(name)));
        }
        if das.len() == 0 {
            self.record_slot(name, false);
            return Ok(slot_render_exec(name, "()", fallback.as_str()));
        }
        self.record_slot(name, true);
        let ty = match self.payload_for(name) {
            None => {
                let mut m = cat3("scoped slot `", name, "` needs a `");
                m.append(name);
                m.append(": _` field in the component's Slots struct");
                return Err(GenError::Message(m));
            },
            Some(t) => t,
        };
        let fields = match payload_fields_exec(&das) {
            Err(e) => return Err(e),
            Ok(v) => v,
        };
        let mut payload = ty;
        payload.append(" { ");
        payload.append(join_strings(&fields, ", ").as_str());
        payload.append(" }");
        Ok(slot_render_exec(name, payload.as_str(), fallback.as_str()))
    }

    /// What a `<slot>` renders when nothing is provided: its single child
    /// element, or an empty anchor.
    fn fallback(&mut self, el: &Element) -> (r: Result<String, GenError>)
        ensures
            final(self).ctx() == old(self).ctx(),
            fallback_code(old(self).ctx(), element_view(*el), old(self).recorded()) == out_view(
                r,
                final(self).recorded(),
            ),
        decreases element_view(*el), element_view(*el).children.len() + 3,
    {
        proof { lemma_nodes_view_index(el.children@); }
        let (count, first) = elem_scan(&el.children);
        if count == 0 {
            Ok(String::from_str("::vue_rs_dom::Backend::create_anchor(&__backend)"))
        } else if count == 1 {
            if first < el.children.len() {
                match &el.children[first] {
                    Node::Element(e) => {
                        assert(element_view(*el).children[first as int] == NodeV::Element(element_view(*e)));
                        self.element(e)
                    },
                    _ => Err(GenError::Message(String::new())),
                }
            } else {
                Err(GenError::Message(String::new()))
            }
        } else {
            Err(GenError::Message(String::from_str("slot fallback content must be a single root element")))
        }
    }

    /// The single element among `cs` (named-slot template content).
    fn single_root(&mut self, cs: &Vec<Node>) -> (r: Result<String, GenError>)
        ensures
            final(self).ctx() == old(self).ctx(),
            single_root_code(old(self).ctx(), nodes_view(cs@), old(self).recorded()) == out_view(
                r,
                final(self).recorded(),
            ),
        decreases nodes_view(cs@), 0int,
    {
        proof { lemma_nodes_view_index(cs@); }
        let (count, first) = elem_scan(cs);
        if count == 1 {
            if first < cs.len() {
                match &cs[first] {
                    Node::Element(e) => {
                        assert(nodes_view(cs@)[first as int] == NodeV::Element(element_view(*e)));
                        self.element(e)
                    },
                    _ => Err(GenError::Message(String::new())),
                }
            } else {
                Err(GenError::Message(String::new()))
            }
        } else {
            Err(GenError::Message(String::from_str("slot content must be a single root element")))
        }
    }

    /// The `.with_<name>(..)` setters for a component's named-slot templates.
    fn named_slots(&mut self, el: &Element) -> (r: Result<String, GenError>)
        ensures
            final(self).ctx() == old(self).ctx(),
            comp_setters(old(self).ctx(), element_view(*el), 0, Seq::<char>::empty(), old(self).recorded())
                == out_view(r, final(self).recorded()),
        decreases element_view(*el), element_view(*el).children.len() + 2,
    {
        let ghost ev = element_view(*el);
        let ghost cx = self.ctx();
        let ghost goal = comp_setters(cx, ev, 0, Seq::<char>::empty(), self.recorded());
        proof { lemma_nodes_view_index(el.children@); }
        let mut setters = String::new();
        let mut k: usize = 0;
        while k < el.children.len()
            invariant
                k <= el.children@.len(),
                ev == element_view(*el),
                ev.children.len() == el.children@.len(),
                forall|i: int| 0 <= i < el.children@.len() ==> #[trigger] ev.children[i] == node_view(el.children@[i]),
                self.ctx() == cx,
                cx == old(self).ctx(),
                goal == comp_setters(old(self).ctx(), element_view(*el), 0, Seq::<char>::empty(), old(self).recorded()),
                goal == comp_setters(cx, ev, k as int, setters@, self.recorded()),
            decreases el.children@.len() - k,
        {
            match &el.children[k] {
                Node::Element(c) => {
                    assert(ev.children[k as int] == NodeV::Element(element_view(*c)));
                    let dir = if str_eq(c.tag.as_str(), "template") {
                        slot_directive(c)
                    } else {
                        None
                    };
                    match dir {
                        Some((name, binding)) => {
                            proof { lemma_nodes_view_index(c.children@); }
                            let content = match self.single_root(&c.children) {
                                Err(e) => return Err(e),
                                Ok(t) => t,
                            };
                            let setter = cat("with_", name.as_str());
                            if !valid_ident(setter.as_str()) {
                                return Err(GenError::InvalidIdent(setter));
                            }
                            if chars_of(binding).len() == 0 {
                                setters.append(" .with_");
                                setters.append(name.as_str());
                                setters.append("(move |__backend, ()| ");
                                setters.append(content.as_str());
                                setters.append(" )");
                            } else {
                                match lex_text(binding) {
                                    Err(e) => {
                                        let mut m = cat3("invalid v-slot binding `", binding, "`: ");
                                        m.append(e.as_str());
                                        return Err(GenError::Message(m));
                                    },
                                    Ok(pat) => {
                                        setters.append(" .with_");
                                        setters.append(name.as_str());
                                        setters.append("(move |__backend, ");
                                        setters.append(pat.as_str());
                                        setters.append(" | ");
                                        setters.append(content.as_str());
                                        setters.append(" )");
                                    },
                                }
                            }
                        },
                        None => {},
                    }
                },
                _ => {},
            }
            k += 1;
        }
        Ok(setters)
    }

    /// A PascalCase tag is a component: `Tag(__backend.clone(), TagProps { .. },
    /// TagSlots::for_backend(&__backend) ..)`. `:name` becomes a prop field,
    /// `@name` an `on_name` callback; child templates fill named slots and the
    /// remaining child element the default slot.
    fn component(&mut self, el: &Element) -> (r: Result<String, GenError>)
        ensures
            final(self).ctx() == old(self).ctx(),
            component_code(old(self).ctx(), element_view(*el), old(self).recorded()) == out_view(
                r,
                final(self).recorded(),
            ),
        decreases element_view(*el), element_view(*el).children.len() + 4,
    {
        if !valid_ident(el.tag.as_str()) {
            return Err(GenError::InvalidIdent(el.tag.clone()));
        }
        let fields = match comp_fields_exec(el) {
            Err(e) => return Err(e),
            Ok(v) => v,
        };
        let setters = match self.named_slots(el) {
            Err(e) => return Err(e),
            Ok(s) => s,
        };
        proof { lemma_nodes_view_index(el.children@); }
        let (count, first) = default_scan(&el.children);
        let all = if count == 0 {
            setters
        } else if count == 1 {
            if first < el.children.len() {
                match &el.children[first] {
                    Node::Element(e) => {
                        assert(element_view(*el).children[first as int] == NodeV::Element(element_view(*e)));
                        let content = match self.element(e) {
                            Err(e) => return Err(e),
                            Ok(t) => t,
                        };
                        let mut a = setters;
                        a.append(" .with_default(move |__backend, ()| ");
                        a.append(content.as_str());
                        a.append(" )");
                        a
                    },
                    _ => return Err(GenError::Message(String::new())),
                }
            } else {
                return Err(GenError::Message(String::new()));
            }
        } else {
            return Err(GenError::Message(String::from_str("default slot content must be a single root element")));
        };
        comp_call_exec(el.tag.as_str(), &fields, all.as_str())
    }
}

} // verus!

verus! {

impl Codegen {
    /// Append the lowering of `cs` to `start`: text, interpolations, child
    /// elements, keyed `v-for` rows and `v-if` / `v-else-if` / `v-else` chains.
    fn children(&mut self, cs: &Vec<Node>, start: String) -> (r: Result<String, GenError>)
        ensures
            final(self).ctx() == old(self).ctx(),
            children_code(old(self).ctx(), nodes_view(cs@), 0, start@, old(self).recorded()) == out_view(
                r,
                final(self).recorded(),
            ),
        decreases nodes_view(cs@), 2int,
    {
        let ghost csv = nodes_view(cs@);
        let ghost cx = self.ctx();
        let ghost goal = children_code(cx, csv, 0, start@, self.recorded());
        proof { lemma_nodes_view_index(cs@); }
        let mut chain = start;
        let mut i: usize = 0;
        while i < cs.len()
            invariant
                i <= cs@.len(),
                csv == nodes_view(cs@),
                csv.len() == cs@.len(),
                forall|j: int| 0 <= j < cs@.len() ==> #[trigger] csv[j] == node_view(cs@[j]),
                self.ctx() == cx,
                cx == old(self).ctx(),
                goal == children_code(old(self).ctx(), nodes_view(cs@), 0, start@, old(self).recorded()),
                goal == children_code(cx, csv, i as int, chain@, self.recorded()),
            decreases cs@.len() - i,
        {
            match &cs[i] {
                Node::StaticText(t) => {
                    assert(csv[i as int] == NodeV::StaticText(t@));
                    chain.append(" .text(");
                    chain.append(string_literal(t.as_str()).as_str());
                    chain.append(")");
                    i += 1;
                },
                Node::DynText(e) => {
                    assert(csv[i as int] == NodeV::DynText(e@));
                    let x = match parse_expr(e.as_str()) {
                        Err(m) => return Err(GenError::Message(m)),
                        Ok(t) => t,
                    };
                    chain.append(" .dyn_text(move || ( ");
                    chain.append(x.as_str());
                    chain.append(" ).to_string())");
                    i += 1;
                },
                Node::Element(el) => {
                    assert(csv[i as int] == NodeV::Element(element_view(*el)));
                    match find_static(el, "v-for") {
                        Some(fe) => {
                            let p = match self.gen_for(el, fe) {
                                Err(e) => return Err(e),
                                Ok(p) => p,
                            };
                            chain.append(" ");
                            chain.append(p.as_str());
                            i += 1;
                        },
                        None => {
                            if find_static(el, "v-if").is_some() {
                                let j = chain_end_exec(cs, i + 1);
                                let p = match self.if_chain(cs, i, j) {
                                    Err(e) => return Err(e),
                                    Ok(p) => p,
                                };
                                chain.append(" ");
                                chain.append(p.as_str());
                                i = j;
                            } else if find_static(el, "v-else-if").is_some() {
                                return Err(GenError::Message(String::from_str("v-else-if without a matching v-if")));
                            } else if find_static(el, "v-else").is_some() {
                                return Err(GenError::Message(String::from_str("v-else without a matching v-if")));
                            } else {
                                let c = match self.element(el) {
                                    Err(e) => return Err(e),
                                    Ok(c) => c,
                                };
                                chain.append(" .child( ");
                                chain.append(c.as_str());
                                chain.append(" )");
                                i += 1;
                            }
                        },
                    }
                },
            }
        }
        Ok(chain)
    }

    /// Lower the `v-if` chain `cs[i..j]` to a `dyn_switch`: the selector returns
    /// the index of the first arm whose condition holds (a `v-else` arm always
    /// holds), or `None` when none does.
    fn if_chain(&mut self, cs: &Vec<Node>, i: usize, j: usize) -> (r: Result<String, GenError>)
        requires
            i < j <= cs@.len(),
        ensures
            final(self).ctx() == old(self).ctx(),
            if_chain_code(
                old(self).ctx(),
                nodes_view(cs@),
                i as int,
                j as int,
                i as int,
                Seq::<char>::empty(),
                Seq::<char>::empty(),
                "::core::option::Option::None"@,
                old(self).recorded(),
            ) == out_view(r, final(self).recorded()),
        decreases nodes_view(cs@), 1int,
    {
        let ghost csv = nodes_view(cs@);
        let ghost cx = self.ctx();
        let mut sel = String::new();
        let mut pushes = String::new();
        let mut tail = String::from_str("::core::option::Option::None");
        let ghost goal = if_chain_code(cx, csv, i as int, j as int, i as int, sel@, pushes@, tail@, self.recorded());
        proof { lemma_nodes_view_index(cs@); }
        let mut k = i;
        while k < j
            invariant
                i <= k <= j,
                j <= cs@.len(),
                csv == nodes_view(cs@),
                csv.len() == cs@.len(),
                forall|x: int| 0 <= x < cs@.len() ==> #[trigger] csv[x] == node_view(cs@[x]),
                self.ctx() == cx,
                cx == old(self).ctx(),
                goal == if_chain_code(
                    old(self).ctx(),
                    nodes_view(cs@),
                    i as int,
                    j as int,
                    i as int,
                    Seq::<char>::empty(),
                    Seq::<char>::empty(),
                    "::core::option::Option::None"@,
                    old(self).recorded(),
                ),
                goal == if_chain_code(cx, csv, i as int, j as int, k as int, sel@, pushes@, tail@, self.recorded()),
            decreases j - k,
        {
            match &cs[k] {
                Node::Element(el) => {
                    assert(csv[k as int] == NodeV::Element(element_view(*el)));
                    let view = match self.element(el) {
                        Err(e) => return Err(e),
                        Ok(v) => v,
                    };
                    let mut push = String::from_str("__views.push(::std::boxed::Box::new(move |__backend| ");
                    push.append(view.as_str());
                    push.append(" )); ");
                    let cond = if k == i {
                        find_static(el, "v-if")
                    } else {
                        find_static(el, "v-else-if")
                    };
                    match cond {
                        Some(c) => {
                            let x = match parse_expr(c) {
                                Err(m) => return Err(GenError::Message(m)),
                                Ok(t) => t,
                            };
                            sel.append("if ( ");
                            sel.append(x.as_str());
                            sel.append(" ) { return ::core::option::Option::Some(");
                            sel.append(usize_literal(k - i).as_str());
                            sel.append("); } ");
                            pushes.append(push.as_str());
                        },
                        None => {
                            pushes.append(push.as_str());
                            tail = String::from_str("::core::option::Option::Some(");
                            tail.append(usize_literal(k - i).as_str());
                            tail.append(")");
                        },
                    }
                },
                _ => {
                    assert(!(csv[k as int] is Element));
                    return Err(GenError::Message(String::new()));
                },
            }
            k += 1;
        }
        let mut s = String::from_str(".dyn_switch(move || { ");
        s.append(sel.as_str());
        s.append(tail.as_str());
        s.append(" }, { let mut __views = ::vue_rs_dom::switch_views(&__backend); ");
        s.append(pushes.as_str());
        s.append("__views }, )");
        Ok(s)
    }

    /// Lower an element carrying `v-for="binding in iterable"` (and `:key`) to
    /// a keyed `dyn_for`; `(item, index)` binds the row's index too.
    fn gen_for(&mut self, el: &Element, for_expr: &str) -> (r: Result<String, GenError>)
        ensures
            final(self).ctx() == old(self).ctx(),
            for_code(old(self).ctx(), element_view(*el), for_expr@, old(self).recorded()) == out_view(
                r,
                final(self).recorded(),
            ),
        decreases element_view(*el), element_view(*el).children.len() + 6,
    {
        let fe = chars_of(for_expr);
        let needle = chars_of(" in ");
        let p = match find(&fe, &needle, 0) {
            None => return Err(GenError::Message(cat3("v-for must be `item in items`, got `", for_expr, "`"))),
            Some(p) => p,
        };
        proof { lemma_find_from(fe@, needle@, 0); }
        assert(occurs_at(fe@, needle@, p as int));
        let nl = needle.len();
        let fl = fe.len();
        assert(p + nl <= fl);
        let binding = string_of(&trim(&slice_chars(&fe, 0, p)));
        assert(fe@.subrange(0, p as int) =~= fe@.take(p as int));
        let iter_src = string_of(&trim(&slice_chars(&fe, p + nl, fl)));
        assert(fe@.subrange(p + needle@.len(), fe@.len() as int) =~= fe@.skip(p + " in "@.len()));
        let iterable = match parse_expr(iter_src.as_str()) {
            Err(m) => return Err(GenError::Message(m)),
            Ok(t) => t,
        };
        let key_src = match find_dyn(el, "key") {
            None => return Err(GenError::Message(String::from_str("v-for requires a :key binding"))),
            Some(k) => k,
        };
        let key = match parse_expr(key_src) {
            Err(m) => return Err(GenError::Message(m)),
            Ok(t) => t,
        };
        let view = match self.element(el) {
            Err(e) => return Err(e),
            Ok(v) => v,
        };
        match index_binding_exec(binding.as_str()) {
            Err(m) => Err(GenError::Message(m)),
            Ok(Some((item, index))) => {
                let mut s = String::from_str(".dyn_for(move || ( ");
                s.append(iterable.as_str());
                s.append(" ).into_iter().enumerate().collect:: < ::std::vec::Vec<_>>(), |( ");
                s.append(index.as_str());
                s.append(" , ");
                s.append(item.as_str());
                s.append(" )| ( ");
                s.append(key.as_str());
                s.append(" ).clone(), move |__backend, ( ");
                s.append(index.as_str());
                s.append(" , ");
                s.append(item.as_str());
                s.append(" )| ");
                s.append(view.as_str());
                s.append(" , )");
                Ok(s)
            },
            Ok(None) => match lex_text(binding.as_str()) {
                Err(e) => Err(GenError::Message(cat("invalid v-for binding: ", e.as_str()))),
                Ok(b) => {
                    let mut s = String::from_str(".dyn_for(move || ( ");
                    s.append(iterable.as_str());
                    s.append(" ), | ");
                    s.append(b.as_str());
                    s.append(" | ( ");
                    s.append(key.as_str());
                    s.append(" ).clone(), move |__backend, ");
                    s.append(b.as_str());
                    s.append(" | ");
                    s.append(view.as_str());
                    s.append(" , )");
                    Ok(s)
                },
            },
        }
    }
}

} // verus!

verus! {

impl Codegen {
    /// The fragment members for the root nodes.
    fn members(&mut self, nodes: &Vec<Node>) -> (r: Result<Vec<String>, GenError>)
        ensures
            final(self).ctx() == old(self).ctx(),
            match r {
                Ok(v) => members_code(old(self).ctx(), nodes_view(nodes@), 0, seq![], old(self).recorded())
                    == Ok::<_, GenErrorV>((string_views(v@), final(self).recorded())),
                Err(e) => members_code(old(self).ctx(), nodes_view(nodes@), 0, seq![], old(self).recorded())
                    == Err::<(Seq<Seq<char>>, Slots), _>(e@),
            },
    {
        let ghost nv = nodes_view(nodes@);
        let ghost cx = self.ctx();
        let mut acc: Vec<String> = Vec::new();
        assert(string_views(acc@) =~= Seq::<Seq<char>>::empty());
        let ghost goal = members_code(cx, nv, 0, string_views(acc@), self.recorded());
        proof { lemma_nodes_view_index(nodes@); }
        let mut k: usize = 0;
        while k < nodes.len()
            invariant
                k <= nodes@.len(),
                nv == nodes_view(nodes@),
                nv.len() == nodes@.len(),
                forall|j: int| 0 <= j < nodes@.len() ==> #[trigger] nv[j] == node_view(nodes@[j]),
                self.ctx() == cx,
                cx == old(self).ctx(),
                goal == members_code(old(self).ctx(), nodes_view(nodes@), 0, seq![], old(self).recorded()),
                goal == members_code(cx, nv, k as int, string_views(acc@), self.recorded()),
            decreases nodes@.len() - k,
        {
            let ghost before = acc@;
            match &nodes[k] {
                Node::StaticText(t) => {
                    assert(nv[k as int] == NodeV::StaticText(t@));
                    let mut m = String::from_str("::vue_rs_dom::Backend::create_text(&__backend, ");
                    m.append(string_literal(t.as_str()).as_str());
                    m.append(")");
                    let ghost mv = m@;
                    acc.push(m);
                    assert(string_views(acc@) =~= string_views(before).push(mv));
                },
                Node::DynText(e) => {
                    assert(nv[k as int] == NodeV::DynText(e@));
                    let x = match parse_expr(e.as_str()) {
                        Err(m) => return Err(GenError::Message(m)),
                        Ok(t) => t,
                    };
                    let mut m = String::from_str("::vue_rs_dom::dyn_text_node(&__backend, move || ( ");
                    m.append(x.as_str());
                    m.append(" ).to_string())");
                    let ghost mv = m@;
                    acc.push(m);
                    assert(string_views(acc@) =~= string_views(before).push(mv));
                },
                Node::Element(el) => {
                    assert(nv[k as int] == NodeV::Element(element_view(*el)));
                    let directive = if find_static(el, "v-if").is_some() {
                        Some("v-if")
                    } else if find_static(el, "v-else-if").is_some() {
                        Some("v-else-if")
                    } else if find_static(el, "v-else").is_some() {
                        Some("v-else")
                    } else if find_static(el, "v-for").is_some() {
                        Some("v-for")
                    } else {
                        None
                    };
                    match directive {
                        Some(d) => {
                            return Err(GenError::Message(cat3("`", d, "` is not supported at the template root; wrap it in an element")));
                        },
                        None => {},
                    }
                    let t = match self.element(el) {
                        Err(e) => return Err(e),
                        Ok(t) => t,
                    };
                    let ghost tv = t@;
                    acc.push(t);
                    assert(string_views(acc@) =~= string_views(before).push(tv));
                },
            }
            k += 1;
        }
        Ok(acc)
    }

    /// The builder expression for a template's root: a single root element
    /// lowers directly to that element; several roots (or root-level text)
    /// lower to a fragment that mounts, moves and unmounts as a unit.
    fn root(&mut self, nodes: &Vec<Node>) -> (r: Result<String, GenError>)
        ensures
            final(self).ctx() == old(self).ctx(),
            root_code(old(self).ctx(), nodes_view(nodes@), old(self).recorded()) == out_view(r, final(self).recorded()),
    {
        proof { lemma_nodes_view_index(nodes@); }
        if nodes.len() == 0 {
            return Err(GenError::Message(String::from_str("template must not be empty")));
        }
        if nodes.len() == 1 {
            match &nodes[0] {
                Node::Element(only) => {
                    assert(nodes_view(nodes@)[0] == NodeV::Element(element_view(*only)));
                    return self.element(only);
                },
                _ => {},
            }
        }
        let members = match self.members(nodes) {
            Err(e) => return Err(e),
            Ok(v) => v,
        };
        let mut s = String::from_str("::vue_rs_dom::Backend::create_fragment(&__backend, ::std::vec![ ");
        s.append(join_strings(&members, ", ").as_str());
        s.append(" ], )");
        Ok(s)
    }
}

/// Parse a template and lower it: the generated code and the `<slot>`s it
/// uses, or why generation stopped.
pub open spec fn template_code(template: Seq<char>, cx: GenCtx) -> Result<(Seq<char>, Slots), GenErrorV> {
    match spec_parse(template) {
        Err(m) => Err(GenErrorV::Message(m)),
        Ok(nodes) => root_code(cx, nodes, seq![]),
    }
}

/// Lower a template with an optional scoped-CSS id and the payload type of
/// each scoped slot: the generated `El`-builder code (as source text) and
/// every `<slot>` it uses, as `(name, scoped)` pairs.
pub fn generate(template: &str, scope: Option<&str>, slot_payloads: Vec<(String, String)>) -> (r: Result<
    (String, Vec<(String, bool)>),
    GenError,
>)
    ensures
        match r {
            Ok((t, s)) => template_code(
                template@,
                GenCtx { scope: opt_view(scope), payloads: pairs_view(slot_payloads@) },
            ) == Ok::<_, GenErrorV>((t@, slots_of(s@))),
            Err(e) => template_code(template@, GenCtx { scope: opt_view(scope), payloads: pairs_view(slot_payloads@) })
                == Err::<(Seq<char>, Slots), _>(e@),
        },
{
    let nodes = match parse(template) {
        Err(m) => return Err(GenError::Message(m)),
        Ok(n) => n,
    };
    let scope_owned = match scope {
        Some(s) => Some(String::from_str(s)),
        None => None,
    };
    let mut cg = Codegen::with_slot_payloads(scope_owned, slot_payloads);
    match cg.root(&nodes) {
        Err(e) => Err(e),
        Ok(t) => Ok((t, cg.slots())),
    }
}

} // verus!
