//! Reading directives off template elements: attribute lookup, the shape of
//! `:class` / `:style` bindings, event modifiers, and component `v-model` /
//! `v-slot` forms.
use vstd::prelude::*;
use crate::compiler::ast::{attrs_view, element_view, Attr, AttrV, Element, ElementV};
use crate::compiler::scan::{
    lemma_colon_from_range, ScanState, css_prop_name, find_object_colon, spec_css_prop_name, spec_find_object_colon, spec_split_top_level,
    spec_unquote, split_top_level, strings_view, unquote,
};
use crate::text::{
    cat3, chars_of, is_ascii_upper, slice_chars, starts_with, str_eq, str_starts_with, string_of, trim,
    trim_seq,
};

verus! {

// ---------------------------------------------------------------------------
// Attribute lookup
// ---------------------------------------------------------------------------

/// The value of `a` when it is the static attribute `name`.
pub open spec fn static_value(a: AttrV, name: Seq<char>) -> Option<Seq<char>> {
    match a {
        AttrV::Static { name: n, value } => if n == name { Some(value) } else { None },
        _ => None,
    }
}

/// The expression of `a` when it is the bound attribute `:name`.
pub open spec fn dyn_value(a: AttrV, name: Seq<char>) -> Option<Seq<char>> {
    match a {
        AttrV::Dyn { name: n, expr } => if n == name { Some(expr) } else { None },
        _ => None,
    }
}

/// The value of the first static attribute `name` at or after `k`.
pub open spec fn static_from(attrs: Seq<AttrV>, name: Seq<char>, k: int) -> Option<Seq<char>>
    decreases attrs.len() - k,
{
    if k < 0 || k >= attrs.len() {
        None
    } else {
        match static_value(attrs[k], name) {
            Some(v) => Some(v),
            None => static_from(attrs, name, k + 1),
        }
    }
}

/// The expression of the first bound attribute `:name` at or after `k`.
pub open spec fn dyn_from(attrs: Seq<AttrV>, name: Seq<char>, k: int) -> Option<Seq<char>>
    decreases attrs.len() - k,
{
    if k < 0 || k >= attrs.len() {
        None
    } else {
        match dyn_value(attrs[k], name) {
            Some(v) => Some(v),
            None => dyn_from(attrs, name, k + 1),
        }
    }
}

/// The value of the element's first static attribute `name`.
pub open spec fn static_attr(el: ElementV, name: Seq<char>) -> Option<Seq<char>> {
    static_from(el.attrs, name, 0)
}

/// The expression of the element's first bound attribute `:name`.
pub open spec fn dyn_attr(el: ElementV, name: Seq<char>) -> Option<Seq<char>> {
    dyn_from(el.attrs, name, 0)
}

/// The value of the first static attribute `name` of `el`.
pub fn find_static<'a>(el: &'a Element, name: &str) -> (r: Option<&'a str>)
    ensures
        match r {
            Some(v) => static_attr(element_view(*el), name@) == Some(v@),
            None => static_attr(element_view(*el), name@) is None,
        },
{
    let ghost attrs = attrs_view(el.attrs@);
    let mut k: usize = 0;
    while k < el.attrs.len()
        invariant
            k <= el.attrs@.len(),
            attrs == attrs_view(el.attrs@),
            static_from(attrs, name@, 0) == static_from(attrs, name@, k as int),
        decreases el.attrs@.len() - k,
    {
        assert(attrs[k as int] == el.attrs@[k as int]@);
        match &el.attrs[k] {
            Attr::Static { name: n, value } => {
                if str_eq(n.as_str(), name) {
                    return Some(value.as_str());
                }
            },
            _ => {},
        }
        k += 1;
    }
    None
}

/// The expression of the first bound attribute `:name` of `el`.
pub fn find_dyn<'a>(el: &'a Element, name: &str) -> (r: Option<&'a str>)
    ensures
        match r {
            Some(v) => dyn_attr(element_view(*el), name@) == Some(v@),
            None => dyn_attr(element_view(*el), name@) is None,
        },
{
    let ghost attrs = attrs_view(el.attrs@);
    let mut k: usize = 0;
    while k < el.attrs.len()
        invariant
            k <= el.attrs@.len(),
            attrs == attrs_view(el.attrs@),
            dyn_from(attrs, name@, 0) == dyn_from(attrs, name@, k as int),
        decreases el.attrs@.len() - k,
    {
        assert(attrs[k as int] == el.attrs@[k as int]@);
        match &el.attrs[k] {
            Attr::Dyn { name: n, expr } => {
                if str_eq(n.as_str(), name) {
                    return Some(expr.as_str());
                }
            },
            _ => {},
        }
        k += 1;
    }
    None
}

/// `v-if`, `v-else-if`, `v-else`, `v-for` and `:key`, which the parent element
/// handles.
pub open spec fn structural(a: AttrV) -> bool {
    match a {
        AttrV::Static { name, .. } => name == "v-if"@ || name == "v-else-if"@ || name == "v-else"@
            || name == "v-for"@,
        AttrV::Dyn { name, .. } => name == "key"@,
        AttrV::Event { .. } => false,
    }
}

/// Whether `attr` is structural (handled by the parent).
pub fn is_structural(attr: &Attr) -> (r: bool)
    ensures
        r == structural(attr@),
{
    match attr {
        Attr::Static { name, .. } => {
            let n = name.as_str();
            str_eq(n, "v-if") || str_eq(n, "v-else-if") || str_eq(n, "v-else") || str_eq(n, "v-for")
        },
        Attr::Dyn { name, .. } => str_eq(name.as_str(), "key"),
        Attr::Event { .. } => false,
    }
}

/// The attribute sets `class` (static `class` or bound `:class`).
pub open spec fn class_attr(a: AttrV) -> bool {
    match a {
        AttrV::Static { name, .. } => name == "class"@,
        AttrV::Dyn { name, .. } => name == "class"@,
        AttrV::Event { .. } => false,
    }
}

/// The attribute sets `style` (static `style` or bound `:style`).
pub open spec fn style_attr(a: AttrV) -> bool {
    match a {
        AttrV::Static { name, .. } => name == "style"@,
        AttrV::Dyn { name, .. } => name == "style"@,
        AttrV::Event { .. } => false,
    }
}

/// Whether `attr` sets the element's `class`.
pub fn is_class_attr(attr: &Attr) -> (r: bool)
    ensures
        r == class_attr(attr@),
{
    match attr {
        Attr::Static { name, .. } => str_eq(name.as_str(), "class"),
        Attr::Dyn { name, .. } => str_eq(name.as_str(), "class"),
        Attr::Event { .. } => false,
    }
}

/// Whether `attr` sets the element's `style`.
pub fn is_style_attr(attr: &Attr) -> (r: bool)
    ensures
        r == style_attr(attr@),
{
    match attr {
        Attr::Static { name, .. } => str_eq(name.as_str(), "style"),
        Attr::Dyn { name, .. } => str_eq(name.as_str(), "style"),
        Attr::Event { .. } => false,
    }
}

// ---------------------------------------------------------------------------
// Components and slots
// ---------------------------------------------------------------------------

/// A tag starting with an ASCII capital names a component.
pub open spec fn component_tag(tag: Seq<char>) -> bool {
    tag.len() > 0 && is_ascii_upper(tag[0])
}

/// Whether `tag` names a component (PascalCase).
pub fn is_component(tag: &str) -> (r: bool)
    ensures
        r == component_tag(tag@),
{
    let cs = chars_of(tag);
    cs.len() > 0 && 'A' <= cs[0] && cs[0] <= 'Z'
}

/// `v-model`, `v-model:arg` or `v-model.modifiers`.
pub open spec fn component_v_model(name: Seq<char>) -> bool {
    name == "v-model"@ || starts_with(name, "v-model:"@) || starts_with(name, "v-model."@)
}

/// Whether an attribute name is a component `v-model`.
pub fn is_component_v_model(name: &str) -> (r: bool)
    ensures
        r == component_v_model(name@),
{
    str_eq(name, "v-model") || str_starts_with(name, "v-model:") || str_starts_with(name, "v-model.")
}

/// The slot name and binding of the first `v-slot:name="binding"` at or after `k`.
pub open spec fn slot_dir_from(attrs: Seq<AttrV>, k: int) -> Option<(Seq<char>, Seq<char>)>
    decreases attrs.len() - k,
{
    if k < 0 || k >= attrs.len() {
        None
    } else {
        match attrs[k] {
            AttrV::Static { name, value } => if starts_with(name, "v-slot:"@) {
                Some((name.skip("v-slot:"@.len() as int), value))
            } else {
                slot_dir_from(attrs, k + 1)
            },
            _ => slot_dir_from(attrs, k + 1),
        }
    }
}

/// The slot name and binding of an element's `v-slot:name="binding"`.
pub open spec fn slot_dir(el: ElementV) -> Option<(Seq<char>, Seq<char>)> {
    slot_dir_from(el.attrs, 0)
}

/// The slot name and binding pattern of a `<template v-slot:name="pat">`; the
/// binding is empty for a plain `<template v-slot:name>`.
pub fn slot_directive(el: &Element) -> (r: Option<(String, &str)>)
    ensures
        match r {
            Some((n, b)) => slot_dir(element_view(*el)) == Some((n@, b@)),
            None => slot_dir(element_view(*el)) is None,
        },
{
    let ghost attrs = attrs_view(el.attrs@);
    let prefix = "v-slot:";
    proof { reveal_strlit("v-slot:"); }
    let mut k: usize = 0;
    while k < el.attrs.len()
        invariant
            k <= el.attrs@.len(),
            attrs == attrs_view(el.attrs@),
            slot_dir_from(attrs, 0) == slot_dir_from(attrs, k as int),
            prefix@ == "v-slot:"@,
            prefix@.len() == 7,
        decreases el.attrs@.len() - k,
    {
        assert(attrs[k as int] == el.attrs@[k as int]@);
        match &el.attrs[k] {
            Attr::Static { name, value } => {
                if str_starts_with(name.as_str(), prefix) {
                    let cs = chars_of(name.as_str());
                    let rest = slice_chars(&cs, 7, cs.len());
                    assert(rest@ =~= name@.skip(7));
                    return Some((string_of(&rest), value.as_str()));
                }
            },
            _ => {},
        }
        k += 1;
    }
    None
}

// ---------------------------------------------------------------------------
// `:class` and `:style` bindings
// ---------------------------------------------------------------------------

/// The shape of a `:class` binding's expression.
pub enum ClassSyntax {
    /// `{ name: cond, .. }`: toggle each class by its condition.
    Object,
    /// `[a, b, ..]`: join each element's class string.
    Array,
    /// Any other expression, yielding a class string directly.
    Plain,
}

/// The shape of a `:style` binding's expression.
pub enum StyleSyntax {
    /// `{ prop: value, .. }`: one declaration per entry.
    Object,
    /// `[a, b, ..]`: join each element's declaration string.
    Array,
    /// Any other expression, yielding a declaration string directly.
    Plain,
}

/// The trimmed expression is wrapped in `open` .. `close`.
pub open spec fn wrapped(expr: Seq<char>, open: char, close: char) -> bool {
    let t = trim_seq(expr);
    t.len() > 0 && t[0] == open && t[t.len() - 1] == close
}

/// The shape of a `:class` expression.
pub open spec fn class_shape(expr: Seq<char>) -> ClassSyntax {
    if wrapped(expr, '{', '}') {
        ClassSyntax::Object
    } else if wrapped(expr, '[', ']') {
        ClassSyntax::Array
    } else {
        ClassSyntax::Plain
    }
}

/// The shape of a `:style` expression.
pub open spec fn style_shape(expr: Seq<char>) -> StyleSyntax {
    if wrapped(expr, '{', '}') {
        StyleSyntax::Object
    } else if wrapped(expr, '[', ']') {
        StyleSyntax::Array
    } else {
        StyleSyntax::Plain
    }
}

/// Whether the trimmed expression is wrapped in `open` .. `close`.
fn is_wrapped(expr: &str, open: char, close: char) -> (r: bool)
    ensures
        r == wrapped(expr@, open, close),
{
    let t = trim(&chars_of(expr));
    t.len() > 0 && t[0] == open && t[t.len() - 1] == close
}

/// Classify a `:class` expression.
pub fn class_syntax(expr: &str) -> (r: ClassSyntax)
    ensures
        r == class_shape(expr@),
{
    if is_wrapped(expr, '{', '}') {
        ClassSyntax::Object
    } else if is_wrapped(expr, '[', ']') {
        ClassSyntax::Array
    } else {
        ClassSyntax::Plain
    }
}

/// Classify a `:style` expression.
pub fn style_syntax(expr: &str) -> (r: StyleSyntax)
    ensures
        r == style_shape(expr@),
{
    if is_wrapped(expr, '{', '}') {
        StyleSyntax::Object
    } else if is_wrapped(expr, '[', ']') {
        StyleSyntax::Array
    } else {
        StyleSyntax::Plain
    }
}

/// The inside of an object literal `{ .. }` (after trimming), if `expr` is one.
pub open spec fn object_inner(expr: Seq<char>) -> Option<Seq<char>> {
    let t = trim_seq(expr);
    if t.len() >= 2 && t[0] == '{' && t[t.len() - 1] == '}' {
        Some(t.subrange(1, t.len() - 1))
    } else {
        None
    }
}

/// The `(name, condition)` entries of the `:class` object pieces from `k` on,
/// after `acc`.
pub open spec fn class_entries(pieces: Seq<Seq<char>>, k: int, acc: Seq<(Seq<char>, Seq<char>)>) -> Result<
    Seq<(Seq<char>, Seq<char>)>,
    Seq<char>,
>
    decreases pieces.len() - k,
{
    if k < 0 || k >= pieces.len() {
        Ok(acc)
    } else {
        let entry = trim_seq(pieces[k]);
        if entry.len() == 0 {
            class_entries(pieces, k + 1, acc)
        } else {
            match spec_find_object_colon(entry) {
                None => Err("`:class` object entry `"@ + entry + "` must be `name: condition`"@),
                Some(c) => {
                    let cond = trim_seq(entry.skip(c + 1));
                    if cond.len() == 0 {
                        Err("`:class` object entry `"@ + entry + "` has no condition"@)
                    } else {
                        class_entries(pieces, k + 1, acc.push((spec_unquote(trim_seq(entry.take(c))), cond)))
                    }
                },
            }
        }
    }
}

/// The entries of a `:class` object literal `{ name: cond, .. }`.
pub open spec fn class_object(expr: Seq<char>) -> Result<Seq<(Seq<char>, Seq<char>)>, Seq<char>> {
    match object_inner(expr) {
        None => Err("invalid `:class` object `"@ + expr + "`"@),
        Some(inner) => class_entries(spec_split_top_level(inner, ','), 0, seq![]),
    }
}

/// The `(prop, value)` entries of the `:style` object pieces from `k` on,
/// after `acc`.
pub open spec fn style_entries(pieces: Seq<Seq<char>>, k: int, acc: Seq<(Seq<char>, Seq<char>)>) -> Result<
    Seq<(Seq<char>, Seq<char>)>,
    Seq<char>,
>
    decreases pieces.len() - k,
{
    if k < 0 || k >= pieces.len() {
        Ok(acc)
    } else {
        let entry = trim_seq(pieces[k]);
        if entry.len() == 0 {
            style_entries(pieces, k + 1, acc)
        } else {
            match spec_find_object_colon(entry) {
                None => Err("`:style` object entry `"@ + entry + "` must be `prop: value`"@),
                Some(c) => {
                    let value = trim_seq(entry.skip(c + 1));
                    if value.len() == 0 {
                        Err("`:style` object entry `"@ + entry + "` has no value"@)
                    } else {
                        style_entries(pieces, k + 1, acc.push((spec_css_prop_name(trim_seq(entry.take(c))), value)))
                    }
                },
            }
        }
    }
}

/// The entries of a `:style` object literal `{ prop: value, .. }`.
pub open spec fn style_object(expr: Seq<char>) -> Result<Seq<(Seq<char>, Seq<char>)>, Seq<char>> {
    match object_inner(expr) {
        None => Err("invalid `:style` object `"@ + expr + "`"@),
        Some(inner) => style_entries(spec_split_top_level(inner, ','), 0, seq![]),
    }
}

/// The views of a sequence of string pairs.
pub open spec fn pairs_view(v: Seq<(String, String)>) -> Seq<(Seq<char>, Seq<char>)> {
    v.map_values(|p: (String, String)| (p.0@, p.1@))
}

/// The inside of an object literal, when `expr` is one.
fn object_inner_exec(expr: &str) -> (r: Option<String>)
    ensures
        match r {
            Some(s) => object_inner(expr@) == Some(s@),
            None => object_inner(expr@) is None,
        },
{
    let t = trim(&chars_of(expr));
    if t.len() >= 2 && t[0] == '{' && t[t.len() - 1] == '}' {
        Some(string_of(&slice_chars(&t, 1, t.len() - 1)))
    } else {
        None
    }
}

/// Split an object entry at its top-level colon: the trimmed key and the
/// trimmed value, or `None` when the entry has no such colon.
fn split_entry(entry: &[char]) -> (r: Option<(Vec<char>, Vec<char>)>)
    ensures
        match r {
            Some((k, v)) => spec_find_object_colon(entry@) matches Some(c) && k@ == trim_seq(entry@.take(c))
                && v@ == trim_seq(entry@.skip(c + 1)),
            None => spec_find_object_colon(entry@) is None,
        },
{
    match find_object_colon(entry) {
        None => None,
        Some(c) => {
            proof {
                lemma_colon_from_range(entry@, 0, ScanState { depth: 0, quote: None, escaped: false });
                assert(spec_find_object_colon(entry@) == Some(c as int));
                assert(c < entry@.len());
            }
            let n = entry.len();
            let key = slice_chars(entry, 0, c);
            let value = slice_chars(entry, c + 1, n);
            assert(key@ =~= entry@.take(c as int));
            assert(value@ =~= entry@.skip(c + 1));
            Some((trim(&key), trim(&value)))
        },
    }
}

/// Parse a `:class` object literal `{ name: cond, .. }` into `(name, condition)`
/// pairs. A name may be bare (`active`) or quoted (`'text-danger'`); either way
/// it is taken verbatim, without its quotes.
pub fn parse_class_object(expr: &str) -> (r: Result<Vec<(String, String)>, String>)
    ensures
        match r {
            Ok(v) => class_object(expr@) == Ok::<_, Seq<char>>(pairs_view(v@)),
            Err(e) => class_object(expr@) == Err::<Seq<(Seq<char>, Seq<char>)>, _>(e@),
        },
{
    let inner = match object_inner_exec(expr) {
        None => return Err(cat3("invalid `:class` object `", expr, "`")),
        Some(s) => s,
    };
    let pieces = split_top_level(inner.as_str(), ',');
    let ghost ps = strings_view(pieces@);
    let mut entries: Vec<(String, String)> = Vec::new();
    assert(pairs_view(entries@) =~= Seq::<(Seq<char>, Seq<char>)>::empty());
    let mut k: usize = 0;
    while k < pieces.len()
        invariant
            k <= pieces@.len(),
            ps == strings_view(pieces@),
            ps == spec_split_top_level(inner@, ','),
            object_inner(expr@) == Some(inner@),
            class_object(expr@) == class_entries(ps, k as int, pairs_view(entries@)),
        decreases pieces@.len() - k,
    {
        let entry = trim(&chars_of(pieces[k].as_str()));
        assert(entry@ == trim_seq(ps[k as int]));
        if entry.len() > 0 {
            match split_entry(&entry) {
                None => {
                    let e = string_of(&entry);
                    return Err(cat3("`:class` object entry `", e.as_str(), "` must be `name: condition`"));
                },
                Some((key, cond)) => {
                    if cond.len() == 0 {
                        let e = string_of(&entry);
                        return Err(cat3("`:class` object entry `", e.as_str(), "` has no condition"));
                    }
                    let name = string_of(&unquote(&key));
                    let ghost before = entries@;
                    entries.push((name, string_of(&cond)));
                    assert(pairs_view(entries@) =~= pairs_view(before).push((name@, cond@)));
                },
            }
        }
        k += 1;
    }
    Ok(entries)
}

/// Parse a `:style` object literal `{ prop: value, .. }` into `(prop, value)`
/// pairs. A bare camelCase key (`fontSize`) becomes kebab-case (`font-size`);
/// a quoted key is taken verbatim, without its quotes.
pub fn parse_style_object(expr: &str) -> (r: Result<Vec<(String, String)>, String>)
    ensures
        match r {
            Ok(v) => style_object(expr@) == Ok::<_, Seq<char>>(pairs_view(v@)),
            Err(e) => style_object(expr@) == Err::<Seq<(Seq<char>, Seq<char>)>, _>(e@),
        },
{
    let inner = match object_inner_exec(expr) {
        None => return Err(cat3("invalid `:style` object `", expr, "`")),
        Some(s) => s,
    };
    let pieces = split_top_level(inner.as_str(), ',');
    let ghost ps = strings_view(pieces@);
    let mut entries: Vec<(String, String)> = Vec::new();
    assert(pairs_view(entries@) =~= Seq::<(Seq<char>, Seq<char>)>::empty());
    let mut k: usize = 0;
    while k < pieces.len()
        invariant
            k <= pieces@.len(),
            ps == strings_view(pieces@),
            ps == spec_split_top_level(inner@, ','),
            object_inner(expr@) == Some(inner@),
            style_object(expr@) == style_entries(ps, k as int, pairs_view(entries@)),
        decreases pieces@.len() - k,
    {
        let entry = trim(&chars_of(pieces[k].as_str()));
        assert(entry@ == trim_seq(ps[k as int]));
        if entry.len() > 0 {
            match split_entry(&entry) {
                None => {
                    let e = string_of(&entry);
                    return Err(cat3("`:style` object entry `", e.as_str(), "` must be `prop: value`"));
                },
                Some((key, value)) => {
                    if value.len() == 0 {
                        let e = string_of(&entry);
                        return Err(cat3("`:style` object entry `", e.as_str(), "` has no value"));
                    }
                    let prop = string_of(&css_prop_name(&key));
                    let ghost before = entries@;
                    entries.push((prop, string_of(&value)));
                    assert(pairs_view(entries@) =~= pairs_view(before).push((prop@, value@)));
                },
            }
        }
        k += 1;
    }
    Ok(entries)
}

// ---------------------------------------------------------------------------
// Event modifiers
// ---------------------------------------------------------------------------

/// Keyboard events, whose key modifiers (`.enter`, `.esc`, ..) apply.
pub open spec fn keyboard_event(event: Seq<char>) -> bool {
    event == "keyup"@ || event == "keydown"@ || event == "keypress"@
}

/// Mouse events, whose button modifiers (`.left`, `.middle`, `.right`) apply.
pub open spec fn mouse_event(event: Seq<char>) -> bool {
    ||| event == "click"@
    ||| event == "dblclick"@
    ||| event == "auxclick"@
    ||| event == "mousedown"@
    ||| event == "mouseup"@
    ||| event == "mousemove"@
    ||| event == "mouseenter"@
    ||| event == "mouseleave"@
    ||| event == "mouseover"@
    ||| event == "mouseout"@
    ||| event == "contextmenu"@
}

/// Whether `event` is a keyboard event.
pub fn is_keyboard_event(event: &str) -> (r: bool)
    ensures
        r == keyboard_event(event@),
{
    str_eq(event, "keyup") || str_eq(event, "keydown") || str_eq(event, "keypress")
}

/// Whether `event` is a mouse event.
pub fn is_mouse_event(event: &str) -> (r: bool)
    ensures
        r == mouse_event(event@),
{
    str_eq(event, "click") || str_eq(event, "dblclick") || str_eq(event, "auxclick") || str_eq(
        event,
        "mousedown",
    ) || str_eq(event, "mouseup") || str_eq(event, "mousemove") || str_eq(event, "mouseenter")
        || str_eq(event, "mouseleave") || str_eq(event, "mouseover") || str_eq(event, "mouseout")
        || str_eq(event, "contextmenu")
}

/// The `MouseEvent.button` value of a mouse-button modifier.
pub open spec fn button_of(m: Seq<char>) -> Option<u16> {
    if m == "left"@ {
        Some(0u16)
    } else if m == "middle"@ {
        Some(1u16)
    } else if m == "right"@ {
        Some(2u16)
    } else {
        None
    }
}

/// Map a mouse-button modifier to its `MouseEvent.button` value.
pub fn mouse_button(m: &str) -> (r: Option<u16>)
    ensures
        r == button_of(m@),
{
    if str_eq(m, "left") {
        Some(0)
    } else if str_eq(m, "middle") {
        Some(1)
    } else if str_eq(m, "right") {
        Some(2)
    } else {
        None
    }
}

/// The `KeyboardEvent.key` value of a key modifier.
pub open spec fn key_of(m: Seq<char>) -> Option<Seq<char>> {
    if m == "enter"@ {
        Some("Enter"@)
    } else if m == "esc"@ || m == "escape"@ {
        Some("Escape"@)
    } else if m == "tab"@ {
        Some("Tab"@)
    } else if m == "space"@ {
        Some(" "@)
    } else if m == "delete"@ {
        Some("Delete"@)
    } else if m == "up"@ {
        Some("ArrowUp"@)
    } else if m == "down"@ {
        Some("ArrowDown"@)
    } else if m == "left"@ {
        Some("ArrowLeft"@)
    } else if m == "right"@ {
        Some("ArrowRight"@)
    } else if m == "home"@ {
        Some("Home"@)
    } else if m == "end"@ {
        Some("End"@)
    } else {
        None
    }
}

/// Map a key modifier to the matching `KeyboardEvent.key` string.
pub fn key_name(m: &str) -> (r: Option<&'static str>)
    ensures
        match r {
            Some(k) => key_of(m@) == Some(k@),
            None => key_of(m@) is None,
        },
{
    if str_eq(m, "enter") {
        Some("Enter")
    } else if str_eq(m, "esc") || str_eq(m, "escape") {
        Some("Escape")
    } else if str_eq(m, "tab") {
        Some("Tab")
    } else if str_eq(m, "space") {
        Some(" ")
    } else if str_eq(m, "delete") {
        Some("Delete")
    } else if str_eq(m, "up") {
        Some("ArrowUp")
    } else if str_eq(m, "down") {
        Some("ArrowDown")
    } else if str_eq(m, "left") {
        Some("ArrowLeft")
    } else if str_eq(m, "right") {
        Some("ArrowRight")
    } else if str_eq(m, "home") {
        Some("Home")
    } else if str_eq(m, "end") {
        Some("End")
    } else {
        None
    }
}

/// A named key value of the UI Events `KeyboardEvent.key` list: the
/// whitespace keys, navigation keys, editing keys and `Escape`.
pub open spec fn named_key_value(k: Seq<char>) -> bool {
    ||| k == "Enter"@
    ||| k == "Tab"@
    ||| k == " "@
    ||| k == "ArrowDown"@
    ||| k == "ArrowLeft"@
    ||| k == "ArrowRight"@
    ||| k == "ArrowUp"@
    ||| k == "End"@
    ||| k == "Home"@
    ||| k == "PageDown"@
    ||| k == "PageUp"@
    ||| k == "Backspace"@
    ||| k == "Delete"@
    ||| k == "Insert"@
    ||| k == "Escape"@
}

/// `s` with ASCII capitals lower-cased.
pub open spec fn ascii_lower(s: Seq<char>) -> Seq<char> {
    s.map_values(|c: char| if 'A' <= c <= 'Z' { ((c as int) + 32) as char } else { c })
}

/// Key modifiers name real keys: every key a modifier maps to is a named
/// `KeyboardEvent.key` value (what browsers report) that the modifier spells
/// in lower case (arrow keys without their `Arrow` prefix; `.space` is the
/// space character), `.esc` and `.escape` are the same key, and no two other
/// modifiers share a key.
pub proof fn law_key_modifiers_name_keys(m1: Seq<char>, m2: Seq<char>)
    ensures
        key_of(m1) matches Some(k) ==> named_key_value(k),
        key_of(m1) matches Some(k) ==> ascii_lower(k) == m1 || ascii_lower(k) == "arrow"@ + m1 || m1 == "esc"@ || (
        m1 == "space"@ && k == " "@),
        key_of("esc"@) is Some && key_of("esc"@) == key_of("escape"@),
        key_of(m1) is Some && key_of(m1) == key_of(m2) && m1 != m2 ==> (m1 == "esc"@ && m2 == "escape"@) || (m1
            == "escape"@ && m2 == "esc"@),
{
    reveal_strlit("Enter");
    reveal_strlit("Escape");
    reveal_strlit("Tab");
    reveal_strlit(" ");
    reveal_strlit("Delete");
    reveal_strlit("ArrowUp");
    reveal_strlit("ArrowDown");
    reveal_strlit("ArrowLeft");
    reveal_strlit("ArrowRight");
    reveal_strlit("Home");
    reveal_strlit("End");
    reveal_strlit("enter");
    reveal_strlit("esc");
    reveal_strlit("escape");
    reveal_strlit("tab");
    reveal_strlit("space");
    reveal_strlit("delete");
    reveal_strlit("up");
    reveal_strlit("down");
    reveal_strlit("left");
    reveal_strlit("right");
    reveal_strlit("home");
    reveal_strlit("end");
    assert("Enter"@.len() == 5);
    assert("Escape"@.len() == 6);
    assert("Tab"@.len() == 3);
    assert(" "@.len() == 1);
    assert("Delete"@.len() == 6);
    assert("ArrowUp"@.len() == 7);
    assert("ArrowDown"@.len() == 9);
    assert("ArrowLeft"@.len() == 9);
    assert("ArrowRight"@.len() == 10);
    assert("Home"@.len() == 4);
    assert("End"@.len() == 3);
    assert("enter"@.len() == 5);
    assert("esc"@.len() == 3);
    assert("escape"@.len() == 6);
    assert("tab"@.len() == 3);
    assert("space"@.len() == 5);
    assert("delete"@.len() == 6);
    assert("up"@.len() == 2);
    assert("down"@.len() == 4);
    assert("left"@.len() == 4);
    assert("right"@.len() == 5);
    assert("home"@.len() == 4);
    assert("end"@.len() == 3);
    assert("Escape"@ != "Delete"@) by { assert("Escape"@[0] != "Delete"@[0]); }
    assert("ArrowDown"@ != "ArrowLeft"@) by { assert("ArrowDown"@[5] != "ArrowLeft"@[5]); }
    assert("Tab"@ != "End"@) by { assert("Tab"@[0] != "End"@[0]); }
    assert(ascii_lower("Enter"@) =~= "enter"@);
    assert(ascii_lower("Escape"@) =~= "escape"@);
    assert(ascii_lower("Tab"@) =~= "tab"@);
    assert(ascii_lower("Delete"@) =~= "delete"@);
    reveal_strlit("arrow");
    assert(ascii_lower("ArrowUp"@) =~= "arrow"@ + "up"@);
    reveal_strlit("arrow");
    assert(ascii_lower("ArrowDown"@) =~= "arrow"@ + "down"@);
    reveal_strlit("arrow");
    assert(ascii_lower("ArrowLeft"@) =~= "arrow"@ + "left"@);
    reveal_strlit("arrow");
    assert(ascii_lower("ArrowRight"@) =~= "arrow"@ + "right"@);
    assert(ascii_lower("Home"@) =~= "home"@);
    assert(ascii_lower("End"@) =~= "end"@);
}

/// The `EventOptions` field a flag modifier sets (`.prevent`, `.stop`, ..).
pub open spec fn flag_field(m: Seq<char>) -> Option<Seq<char>> {
    if m == "prevent"@ {
        Some("prevent_default: true"@)
    } else if m == "stop"@ {
        Some("stop_propagation: true"@)
    } else if m == "once"@ {
        Some("once: true"@)
    } else if m == "capture"@ {
        Some("capture: true"@)
    } else if m == "passive"@ {
        Some("passive: true"@)
    } else if m == "self"@ {
        Some("self_only: true"@)
    } else if m == "ctrl"@ {
        Some("ctrl: true"@)
    } else if m == "alt"@ {
        Some("alt: true"@)
    } else if m == "shift"@ {
        Some("shift: true"@)
    } else if m == "meta"@ {
        Some("meta: true"@)
    } else if m == "exact"@ {
        Some("exact: true"@)
    } else {
        None
    }
}

/// The `EventOptions` field initializer for a flag modifier.
pub fn modifier_flag(m: &str) -> (r: Option<&'static str>)
    ensures
        match r {
            Some(f) => flag_field(m@) == Some(f@),
            None => flag_field(m@) is None,
        },
{
    if str_eq(m, "prevent") {
        Some("prevent_default: true")
    } else if str_eq(m, "stop") {
        Some("stop_propagation: true")
    } else if str_eq(m, "once") {
        Some("once: true")
    } else if str_eq(m, "capture") {
        Some("capture: true")
    } else if str_eq(m, "passive") {
        Some("passive: true")
    } else if str_eq(m, "self") {
        Some("self_only: true")
    } else if str_eq(m, "ctrl") {
        Some("ctrl: true")
    } else if str_eq(m, "alt") {
        Some("alt: true")
    } else if str_eq(m, "shift") {
        Some("shift: true")
    } else if str_eq(m, "meta") {
        Some("meta: true")
    } else if str_eq(m, "exact") {
        Some("exact: true")
    } else {
        None
    }
}

} // verus!
