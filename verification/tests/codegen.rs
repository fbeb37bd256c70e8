//! Lowering of control flow, slots and components, and the checked forms.

use proc_macro2::TokenStream;
use vue_rs::compiler::tokens::SourceTokens;
use vue_rs::compiler::codegen::generate;
use vue_rs::compiler::compile::{
    compile_component_template, compile_template, compile_template_checked, compile_template_scoped,
};

fn same(out: SourceTokens, expected: &str) {
    let expected: TokenStream = expected.parse().expect("expected code should lex");
    assert_eq!(out.stream().to_string(), expected.to_string());
}

#[test]
fn v_if_chain_becomes_dyn_switch() {
    let out = compile_template(
        r#"<div><p v-if="a()">x</p><p v-else-if="b()">y</p><p v-else>z</p></div>"#,
    )
    .unwrap();
    same(
        out,
        r#"El::new(__backend.clone(), "div")
            .dyn_switch(
                move || {
                    if (a()) { return ::core::option::Option::Some(0usize); }
                    if (b()) { return ::core::option::Option::Some(1usize); }
                    ::core::option::Option::Some(2usize)
                },
                {
                    let mut __views = ::vue_rs_dom::switch_views(&__backend);
                    __views.push(::std::boxed::Box::new(move |__backend| El::new(__backend.clone(), "p").text("x").finish()));
                    __views.push(::std::boxed::Box::new(move |__backend| El::new(__backend.clone(), "p").text("y").finish()));
                    __views.push(::std::boxed::Box::new(move |__backend| El::new(__backend.clone(), "p").text("z").finish()));
                    __views
                },
            )
            .finish()"#,
    );
}

#[test]
fn v_if_without_else_selects_none() {
    let out = compile_template(r#"<div><p v-if="a()">x</p><span>s</span></div>"#).unwrap();
    same(
        out,
        r#"El::new(__backend.clone(), "div")
            .dyn_switch(
                move || {
                    if (a()) { return ::core::option::Option::Some(0usize); }
                    ::core::option::Option::None
                },
                {
                    let mut __views = ::vue_rs_dom::switch_views(&__backend);
                    __views.push(::std::boxed::Box::new(move |__backend| El::new(__backend.clone(), "p").text("x").finish()));
                    __views
                },
            )
            .child(El::new(__backend.clone(), "span").text("s").finish())
            .finish()"#,
    );
}

#[test]
fn stray_else_is_an_error() {
    let err = compile_template(r#"<div><p v-else>z</p></div>"#).err().unwrap();
    assert_eq!(err.message(), "v-else without a matching v-if");
    let err = compile_template(r#"<div><p v-else-if="x">z</p></div>"#).err().unwrap();
    assert_eq!(err.message(), "v-else-if without a matching v-if");
}

#[test]
fn keyed_v_for_becomes_dyn_for() {
    let out = compile_template(r#"<ul><li v-for="item in items()" :key="item.id">{{ item.name }}</li></ul>"#).unwrap();
    same(
        out,
        r#"El::new(__backend.clone(), "ul")
            .dyn_for(
                move || (items()),
                |item| (item.id).clone(),
                move |__backend, item| El::new(__backend.clone(), "li").dyn_text(move || (item.name).to_string()).finish(),
            )
            .finish()"#,
    );
}

#[test]
fn v_for_with_index_enumerates_rows() {
    let out = compile_template(r#"<ul><li v-for="(item, i) in items()" :key="item.id">x</li></ul>"#).unwrap();
    same(
        out,
        r#"El::new(__backend.clone(), "ul")
            .dyn_for(
                move || (items()).into_iter().enumerate().collect:: < ::std::vec::Vec<_>>(),
                |(i, item)| (item.id).clone(),
                move |__backend, (i, item)| El::new(__backend.clone(), "li").text("x").finish(),
            )
            .finish()"#,
    );
}

#[test]
fn v_for_errors() {
    let err = compile_template(r#"<ul><li v-for="items" :key="k">x</li></ul>"#).err().unwrap();
    assert_eq!(err.message(), "v-for must be `item in items`, got `items`");
    let err = compile_template(r#"<ul><li v-for="x in xs">x</li></ul>"#).err().unwrap();
    assert_eq!(err.message(), "v-for requires a :key binding");
    let err = compile_template(r#"<ul><li v-for="(x) in xs" :key="x">x</li></ul>"#).err().unwrap();
    assert_eq!(err.message(), "v-for tuple binding must be `(item, index)`, got `(x)`");
}

#[test]
fn default_slot_renders_provided_content_or_anchor() {
    let out = compile_template(r#"<div><slot></slot></div>"#).unwrap();
    same(
        out,
        r#"El::new(__backend.clone(), "div")
            .child(match &__slots.default {
                ::core::option::Option::Some(__slot) => { __slot.render(__backend.clone(), ()) }
                ::core::option::Option::None => ::vue_rs_dom::Backend::create_anchor(&__backend),
            })
            .finish()"#,
    );
}

#[test]
fn slot_fallback_is_its_child_element() {
    let out = compile_template(r#"<div><slot name="footer"><p>none</p></slot></div>"#).unwrap();
    same(
        out,
        r#"El::new(__backend.clone(), "div")
            .child(match &__slots.footer {
                ::core::option::Option::Some(__slot) => { __slot.render(__backend.clone(), ()) }
                ::core::option::Option::None => El::new(__backend.clone(), "p").text("none").finish(),
            })
            .finish()"#,
    );
}

#[test]
fn scoped_slot_builds_its_payload_and_is_recorded() {
    let compiled = compile_component_template(
        r#"<ul><slot name="item" :row="r()"></slot><slot></slot><slot name="item" :row="q()"></slot></ul>"#,
        None,
        vec![("item".to_string(), "ItemPayload".to_string())],
    )
    .unwrap();
    assert_eq!(compiled.slots, vec![("item".to_string(), true), ("default".to_string(), false)]);
    same(
        compiled.tokens,
        r#"El::new(__backend.clone(), "ul")
            .child(match &__slots.item {
                ::core::option::Option::Some(__slot) => { __slot.render(__backend.clone(), ItemPayload { row: r() }) }
                ::core::option::Option::None => ::vue_rs_dom::Backend::create_anchor(&__backend),
            })
            .child(match &__slots.default {
                ::core::option::Option::Some(__slot) => { __slot.render(__backend.clone(), ()) }
                ::core::option::Option::None => ::vue_rs_dom::Backend::create_anchor(&__backend),
            })
            .child(match &__slots.item {
                ::core::option::Option::Some(__slot) => { __slot.render(__backend.clone(), ItemPayload { row: q() }) }
                ::core::option::Option::None => ::vue_rs_dom::Backend::create_anchor(&__backend),
            })
            .finish()"#,
    );
}

#[test]
fn scoped_slot_without_declared_payload_is_an_error() {
    let err = compile_template(r#"<ul><slot name="item" :row="r()"></slot></ul>"#).err().unwrap();
    assert_eq!(
        err.message(),
        "scoped slot `item` needs a `item: _` field in the component's Slots struct"
    );
}

#[test]
fn component_children_fill_named_and_default_slots() {
    let out = compile_template(
        r#"<Card><template v-slot:header><h1>T</h1></template><p>body</p></Card>"#,
    )
    .unwrap();
    same(
        out,
        r#"Card(
            __backend.clone(),
            CardSlots::for_backend(&__backend)
                .with_header(move |__backend, ()| El::new(__backend.clone(), "h1").text("T").finish())
                .with_default(move |__backend, ()| El::new(__backend.clone(), "p").text("body").finish())
        )"#,
    );
}

#[test]
fn scoped_slot_template_binds_its_pattern() {
    let out = compile_template(r#"<List><template v-slot:item="row"><p>x</p></template></List>"#).unwrap();
    same(
        out,
        r#"List(
            __backend.clone(),
            ListSlots::for_backend(&__backend)
                .with_item(move |__backend, row| El::new(__backend.clone(), "p").text("x").finish())
        )"#,
    );
}

#[test]
fn two_default_slot_elements_are_an_error() {
    let err = compile_template(r#"<Card><p>a</p><p>b</p></Card>"#).err().unwrap();
    assert_eq!(err.message(), "default slot content must be a single root element");
}

#[test]
fn names_that_are_not_identifiers_are_refused_by_the_checked_form() {
    assert!(compile_template_checked(r#"<Child @click.stop="f()" />"#).is_none());
    assert!(compile_template_checked(r#"<div><Foo-bar /></div>"#).is_none());
    assert!(compile_template_checked(r#"<Child :my-prop="1" />"#).is_none());
    assert!(compile_template_checked(r#"<div><p>ok</p></div>"#).is_some());
}

#[test]
fn scoped_template_marks_every_element() {
    let out = compile_template_scoped(r#"<div><p>x</p></div>"#, "abc").unwrap();
    same(
        out,
        r#"El::new(__backend.clone(), "div").attr("data-v-abc", "")
            .child(El::new(__backend.clone(), "p").attr("data-v-abc", "").text("x").finish())
            .finish()"#,
    );
}

#[test]
fn v_show_folds_into_static_style() {
    let out = compile_template(r#"<p v-show="on()" style="color: red">x</p>"#).unwrap();
    same(
        out,
        r#"El::new(__backend.clone(), "p")
            .dyn_attr("style", move || {
                let __base: ::std::string::String = ::vue_rs_dom::StyleList::new().push("color: red").finish();
                if (on()) { __base } else if __base.is_empty() { "display: none".to_string() } else { ::std::format!("{}; display: none", __base) }
            })
            .text("x")
            .finish()"#,
    );
}

#[test]
fn v_html_sets_inner_html() {
    let out = compile_template(r#"<div v-html="html()">ignored</div>"#).unwrap();
    same(out, r#"El::new(__backend.clone(), "div").dyn_inner_html(move || html()).finish()"#);
}

#[test]
fn generate_gives_source_text_and_slots() {
    let (text, slots) = generate("<p>hi</p>", None, Vec::new()).ok().unwrap();
    assert_eq!(text, r#"El::new(__backend.clone(), "p") .text("hi") .finish()"#);
    assert!(slots.is_empty());
}

#[test]
fn empty_template_is_an_error() {
    let err = compile_template("").err().unwrap();
    assert_eq!(err.message(), "template must not be empty");
}

#[test]
fn root_level_control_flow_message() {
    let err = compile_template(r#"<p v-for="i in xs" :key="i">a</p><p>b</p>"#).err().unwrap();
    assert_eq!(err.message(), "`v-for` is not supported at the template root; wrap it in an element");
}

#[test]
fn invalid_expression_message_names_the_source() {
    let err = compile_template("<p>{{ count.get( }}</p>").err().unwrap();
    assert!(err.message().starts_with("invalid expression `count.get(`: "), "{}", err.message());
}

#[test]
fn parser_errors_spell_characters_as_debug() {
    let err = compile_template("<p /x>").err().unwrap();
    assert_eq!(err.message(), "expected '>', found Some('x')");
    let err = compile_template("<p>hi</p").err().unwrap();
    assert_eq!(err.message(), "expected '>', found None");
    let err = compile_template("<p =\"x\"></p>").err().unwrap();
    assert_eq!(err.message(), "unexpected character Some('=') in tag");
}

#[test]
fn non_identifier_ref_is_reported_with_its_debug_spelling() {
    let err = compile_template(r#"<input ref="a b" />"#).err().unwrap();
    assert_eq!(err.message(), r#"`ref` value must be an identifier, got "a b""#);
}
