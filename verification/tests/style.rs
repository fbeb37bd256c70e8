//! Scoped-style helpers.

use std::collections::hash_map::DefaultHasher;
use std::hash::{Hash, Hasher};
use vue_rs::{scope_css, scope_id};

#[test]
fn scope_css_appends_marker_to_selector() {
    assert_eq!(
        scope_css("button { color: red; }", "abc123"),
        "button[data-v-abc123]{ color: red; }"
    );
}

#[test]
fn scope_css_handles_multiple_selectors() {
    assert_eq!(
        scope_css(".a, .b { x: 1; }", "id"),
        ".a[data-v-id], .b[data-v-id]{ x: 1; }"
    );
}

#[test]
fn scope_css_inserts_marker_before_pseudo_class() {
    assert_eq!(
        scope_css("button:hover { color: red; }", "abc"),
        "button[data-v-abc]:hover{ color: red; }"
    );
}

#[test]
fn scope_css_inserts_marker_before_pseudo_element() {
    assert_eq!(
        scope_css(".foo::before { content: x; }", "id"),
        ".foo[data-v-id]::before{ content: x; }"
    );
}

#[test]
fn scope_css_scopes_last_compound_in_descendant_with_pseudo() {
    assert_eq!(
        scope_css(".list li:first-child { x: 1; }", "id"),
        ".list li[data-v-id]:first-child{ x: 1; }"
    );
}

#[test]
fn scope_css_ignores_combinator_chars_inside_pseudo_args() {
    assert_eq!(
        scope_css("li:nth-child(2n+1) { x: 1; }", "id"),
        "li[data-v-id]:nth-child(2n+1){ x: 1; }"
    );
}

#[test]
fn scope_id_is_stable() {
    assert_eq!(scope_id("src/foo.vrs"), scope_id("src/foo.vrs"));
    assert_ne!(scope_id("a"), scope_id("b"));
}

#[test]
fn scope_id_is_eight_lowercase_hex_digits() {
    let id = scope_id("src/counter.vrs");
    assert_eq!(id.len(), 8);
    assert!(id.chars().all(|c| c.is_ascii_digit() || ('a'..='f').contains(&c)));
}

#[test]
fn scope_id_matches_the_default_hasher() {
    let mut hasher = DefaultHasher::new();
    "seed".hash(&mut hasher);
    assert_eq!(scope_id("seed"), format!("{:08x}", hasher.finish() as u32));
}

#[test]
fn scope_css_descendant_selector_scopes_rightmost() {
    assert_eq!(scope_css(".a .b { x: 1; }", "id"), ".a .b[data-v-id]{ x: 1; }");
}

#[test]
fn scope_css_child_combinator_and_attribute_selector() {
    assert_eq!(
        scope_css("ul > li[data-x=\"a b\"] { x: 1; }", "q"),
        "ul > li[data-x=\"a b\"][data-v-q]{ x: 1; }"
    );
}

#[test]
fn scope_css_handles_several_rules_and_trailing_text() {
    assert_eq!(
        scope_css("a{x:1}\nb:focus{y:2}\n", "z"),
        "a[data-v-z]{x:1}b[data-v-z]:focus{y:2}\n"
    );
}

#[test]
fn scope_css_empty_input_is_empty() {
    assert_eq!(scope_css("", "z"), "");
}
