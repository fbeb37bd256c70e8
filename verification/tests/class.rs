//! `ClassList` joins class-name fragments into a single space-separated
//! `class` string, skipping empties and conditional entries.

use vue_rs::ClassList;

#[test]
fn push_joins_non_empty_with_single_spaces() {
    let s = ClassList::new().push("a").push("b").push("c").finish();
    assert_eq!(s, "a b c");
}

#[test]
fn class_push_skips_empty_fragments() {
    let s = ClassList::new().push("").push("a").push("").push("b").finish();
    assert_eq!(s, "a b");
}

#[test]
fn push_if_includes_only_when_true() {
    let s = ClassList::new()
        .push("base")
        .push_if("active", true)
        .push_if("error", false)
        .finish();
    assert_eq!(s, "base active");
}

#[test]
fn class_push_accepts_str_and_string() {
    let owned = String::from("b");
    let s = ClassList::new().push("a").push(&owned).push(owned.clone()).finish();
    assert_eq!(s, "a b b");
}

#[test]
fn class_empty_builder_yields_empty_string() {
    assert_eq!(ClassList::new().finish(), "");
}

#[test]
fn class_list_keeps_inner_spaces_of_a_fragment() {
    assert_eq!(ClassList::new().push("a b").push("c").finish(), "a b c");
}

#[test]
fn into_attrs_stringifies_pairs_in_order() {
    use_into_attrs();
}

fn use_into_attrs() {
    let v = vec![("id", 1), ("tabindex", 2)];
    assert_eq!(
        vue_rs::IntoAttrs::into_attrs(v),
        vec![("id".to_string(), "1".to_string()), ("tabindex".to_string(), "2".to_string())]
    );
    let a = [("title", "hi"), ("lang", "en")];
    assert_eq!(
        vue_rs::IntoAttrs::into_attrs(a),
        vec![("title".to_string(), "hi".to_string()), ("lang".to_string(), "en".to_string())]
    );
}
