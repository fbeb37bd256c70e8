//! Whole-component compilation: the render function, its props builder,
//! slots struct, hoisted items and scoped-style constant.

use vue_rs::compiler::component::{
    compile_component, compile_component_checked, compile_component_parts, compile_component_parts_checked,
    component_source,
};
use vue_rs::compiler::items::{AttrArgs, AttrDecl, FieldDecl, FieldsDecl, ScriptItem, StructDecl, TypeExpr};
use vue_rs::split_sfc;

#[test]
fn compiles_a_minimal_component() {
    let src = r#"
<template><button @click="count.set(count.get()+1)">{{ count.get() }}</button></template>
<script lang="rust">
use vue_rs_reactive::signal;
let count = signal(0);
</script>
"#;
    let tokens = compile_component("Counter", src, "src/counter.vrs", None).unwrap();
    // Parses as valid Rust and defines `pub fn Counter`.
    let file: syn::File = syn::parse2(tokens.into_stream()).expect("output is valid Rust");
    let has_fn = file
        .items
        .iter()
        .any(|i| matches!(i, syn::Item::Fn(f) if f.sig.ident == "Counter"));
    assert!(has_fn, "expected a `pub fn Counter` in the output");
}

#[test]
fn omits_rerun_trigger_when_path_is_none() {
    let tokens = compile_component("Counter", "<template><p>hi</p></template>", "x", None).unwrap();
    assert!(
        !tokens.stream().to_string().contains("include_bytes"),
        "no rebuild trigger without a path"
    );
}

#[test]
fn emits_rerun_trigger_with_a_path() {
    let tokens = compile_component("Counter", "<template><p>hi</p></template>", "x", Some("/a/b.vrs")).unwrap();
    let text = tokens.stream().to_string();
    assert!(text.contains("include_bytes ! (\"/a/b.vrs\")"), "{text}");
}

#[test]
fn script_statements_are_sorted_into_hoisted_items_and_body() {
    let src = "<template><p>{{ n }}</p></template><script>use a::b; struct Row; let n = 1;</script>";
    let text = compile_component("Card", src, "x", None).unwrap().stream().to_string();
    let pos_use = text.find("use a :: b ;").unwrap();
    let pos_struct = text.find("struct Row ;").unwrap();
    let pos_fn = text.find("pub fn Card").unwrap();
    let pos_body = text.find("let n = 1 ;").unwrap();
    assert!(pos_use < pos_fn && pos_struct < pos_fn && pos_fn < pos_body, "{text}");
}

#[test]
fn script_sugar_is_rewritten_before_parsing() {
    let src = "<template><p>x</p></template><script>let c = ref(0); watchEffect(|| {});</script>";
    let text = compile_component("Card", src, "x", None).unwrap().stream().to_string();
    assert!(text.contains("let c = signal (0) ;"), "{text}");
    assert!(text.contains("effect (| | { }) ;"), "{text}");
}

#[test]
fn script_that_does_not_parse_is_reported() {
    let src = "<template><p>x</p></template><script>let = ;</script>";
    let err = compile_component("Card", src, "x", None).err().unwrap();
    assert!(err.message().starts_with("invalid <script>: "), "{}", err.message());
}

#[test]
fn script_that_does_not_lex_is_reported() {
    let src = "<template><p>x</p></template><script>let a = (;</script>";
    let err = compile_component("Card", src, "x", None).err().unwrap();
    assert!(err.message().starts_with("invalid <script>: "), "{}", err.message());
}

#[test]
fn source_without_template_is_reported() {
    let err = compile_component("Card", "<script>let a = 1;</script>", "x", None).err().unwrap();
    assert_eq!(err.message(), "`.vrs` is missing a <template> block");
}

#[test]
fn props_with_defaults_read_from_the_script() {
    let src = "<template><p>{{ props.title.clone() }}</p></template><script>\
        pub struct CardProps { pub title: String, #[prop(default)] pub count: i32, #[prop(default = 7)] pub size: u8 }\
        </script>";
    let text = compile_component("Card", src, "x", None).unwrap().stream().to_string();
    assert!(text.contains(", props : CardProps"), "{text}");
    assert!(text.contains("pub struct CardPropsBuilder"), "{text}");
    assert!(!text.contains("prop (default"), "the prop attributes are stripped: {text}");
    assert!(text.contains("unwrap_or_else (self . size , || 7)"), "{text}");
}

#[test]
fn writable_prop_in_the_script_is_rejected() {
    let src = "<template><p>x</p></template><script>pub struct CardProps { pub value: Signal<i32> }</script>";
    let err = compile_component("Card", src, "x", None).err().unwrap();
    assert!(err.message().contains("read-only"), "{}", err.message());
}

#[test]
fn prop_attribute_other_than_default_is_reported() {
    let src = "<template><p>x</p></template><script>pub struct CardProps { #[prop(nope)] pub value: i32 }</script>";
    let err = compile_component("Card", src, "x", None).err().unwrap();
    assert_eq!(err.message(), "invalid `#[prop(...)]` on `value`: expected `default`");
}

#[test]
fn prop_attribute_with_a_keyword_is_reported() {
    let src = "<template><p>x</p></template><script>pub struct CardProps { #[prop(fn)] pub value: i32 }</script>";
    let err = compile_component("Card", src, "x", None).err().unwrap();
    assert_eq!(err.message(), "invalid `#[prop(...)]` on `value`: expected identifier, found keyword `fn`");
}

#[test]
fn prop_attribute_with_trailing_tokens_is_reported() {
    let src = "<template><p>x</p></template><script>pub struct CardProps { #[prop(default, x)] pub value: i32 }</script>";
    let err = compile_component("Card", src, "x", None).err().unwrap();
    assert_eq!(err.message(), "invalid `#[prop(...)]` on `value`: unexpected token");
}

#[test]
fn prop_attribute_without_arguments_is_reported() {
    let src = "<template><p>x</p></template><script>pub struct CardProps { #[prop] pub value: i32 }</script>";
    let err = compile_component("Card", src, "x", None).err().unwrap();
    assert_eq!(
        err.message(),
        "invalid `#[prop(...)]` on `value`: expected attribute arguments in parentheses: #[prop(...)]"
    );
}

#[test]
fn component_source_with_an_invalid_component_tag_is_refused_by_the_checked_form() {
    assert!(compile_component_checked("Card", "<template><div><Foo-bar /></div></template>", "x", None).is_none());
    assert!(compile_component_checked("Card", "<template><p>x</p></template>", "x", None).is_some());
}

#[test]
fn style_block_becomes_scoped_constant_and_marks_elements() {
    let sfc = split_sfc("<template><p>hi</p></template><style>p { color: red; }</style>").unwrap();
    let text = component_source("Card", &sfc, &Vec::new(), "src/card.vrs", None).ok().unwrap();
    let id = vue_rs::scope_id("src/card.vrs");
    assert!(text.contains("pub const CARD_STYLE: &str = "), "{text}");
    assert!(text.contains(&format!("[data-v-{id}]")), "{text}");
    assert!(text.contains(&format!("\"data-v-{id}\"")), "{text}");
    let _: syn::File = syn::parse_str(&text).expect("output is valid Rust");
}

fn field(name: &str, ty: &str, attrs: Vec<AttrDecl>) -> FieldDecl {
    FieldDecl {
        attrs,
        vis: "pub".to_string(),
        name: name.to_string(),
        ty: ty.to_string(),
        ty_expr: TypeExpr::Path { last: Some(ty.to_string()), args: None },
    }
}

fn prop_attr(args: &str) -> AttrDecl {
    AttrDecl {
        text: format!("# [prop ({args})]"),
        ident: Some("prop".to_string()),
        args: AttrArgs::List(args.to_string()),
    }
}

fn props_struct(fields: Vec<FieldDecl>) -> StructDecl {
    StructDecl {
        attrs: Vec::new(),
        vis: "pub".to_string(),
        name: "CardProps".to_string(),
        generics: String::new(),
        has_params: false,
        where_clause: String::new(),
        fields: FieldsDecl::Named(fields, true),
        text: String::new(),
    }
}

#[test]
fn props_struct_becomes_parameter_and_builder() {
    let sfc = split_sfc("<template><p>{{ props.title.clone() }}</p></template>").unwrap();
    let items = vec![ScriptItem::Struct(props_struct(vec![
        field("title", "String", vec![]),
        field("count", "i32", vec![prop_attr("default")]),
    ]))];
    let text = component_source("Card", &sfc, &items, "x", None).ok().unwrap();
    assert!(text.contains(", props: CardProps"), "{text}");
    assert!(text.contains("pub struct CardPropsBuilder"), "{text}");
    assert!(!text.contains("prop (default)"), "the prop attribute is stripped: {text}");
    let _: syn::File = syn::parse_str(&text).expect("output is valid Rust");
}

#[test]
fn writable_prop_is_rejected_by_the_component() {
    let sfc = split_sfc("<template><p>x</p></template>").unwrap();
    let mut f = field("value", "Signal<i32>", vec![]);
    f.ty_expr = TypeExpr::Path { last: Some("Signal".to_string()), args: None };
    let items = vec![ScriptItem::Struct(props_struct(vec![f]))];
    let err = compile_component_parts("Card", &sfc, &items, "x", None).err().unwrap();
    assert!(err.message().contains("read-only"));
}

#[test]
fn invalid_prop_default_is_reported() {
    let sfc = split_sfc("<template><p>x</p></template>").unwrap();
    let items = vec![ScriptItem::Struct(props_struct(vec![field("value", "i32", vec![prop_attr("nope")])]))];
    let err = compile_component_parts("Card", &sfc, &items, "x", None).err().unwrap();
    assert_eq!(err.message(), "invalid `#[prop(...)]` on `value`: expected `default`");
}

#[test]
fn component_with_an_invalid_component_tag_is_refused_by_the_checked_form() {
    let sfc = split_sfc("<template><div><Foo-bar /></div></template>").unwrap();
    assert!(compile_component_parts_checked("Card", &sfc, &Vec::new(), "x", None).is_none());
}

#[test]
fn other_structs_and_body_are_hoisted_and_kept() {
    let sfc = split_sfc("<template><p>x</p></template>").unwrap();
    let other = StructDecl {
        attrs: Vec::new(),
        vis: String::new(),
        name: "Row".to_string(),
        generics: String::new(),
        has_params: false,
        where_clause: String::new(),
        fields: FieldsDecl::Unit,
        text: "struct Row ;".to_string(),
    };
    let items = vec![ScriptItem::Struct(other), ScriptItem::Other("let n = 1 ;".to_string())];
    let text = component_source("Card", &sfc, &items, "x", None).ok().unwrap();
    let pos_struct = text.find("struct Row ;").unwrap();
    let pos_fn = text.find("pub fn Card").unwrap();
    let pos_body = text.find("let n = 1 ;").unwrap();
    assert!(pos_struct < pos_fn && pos_fn < pos_body, "{text}");
}
