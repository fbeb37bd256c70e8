//! Props are read-only. A component's `NameProps` struct may not declare a
//! field with a writable reactive type (`Signal`/`WritableMemo`), so a child
//! cannot mutate parent state through a prop. Read-only handles
//! (`ReadSignal`/`Memo`) and plain values are fine; updates go up via emits.

use vue_rs::compiler::items::{check_prop_fields, FieldDecl, FieldsDecl, StructDecl, TypeExpr};

fn ty(last: &str, args: Vec<TypeExpr>) -> TypeExpr {
    TypeExpr::Path {
        last: Some(last.to_string()),
        args: if args.is_empty() { None } else { Some(args.into_iter().map(Some).collect()) },
    }
}

fn field(name: &str, ty_text: &str, ty_expr: TypeExpr) -> FieldDecl {
    FieldDecl {
        attrs: Vec::new(),
        vis: "pub".to_string(),
        name: name.to_string(),
        ty: ty_text.to_string(),
        ty_expr,
    }
}

fn item(fields: Vec<FieldDecl>) -> StructDecl {
    StructDecl {
        attrs: Vec::new(),
        vis: String::new(),
        name: "P".to_string(),
        generics: String::new(),
        has_params: false,
        where_clause: String::new(),
        fields: FieldsDecl::Named(fields, false),
        text: String::new(),
    }
}

#[test]
fn read_only_and_plain_prop_fields_are_allowed() {
    let s = item(vec![
        field("value", "ReadSignal<i32>", ty("ReadSignal", vec![ty("i32", vec![])])),
        field("label", "String", ty("String", vec![])),
        field("on_change", "Callback<i32>", ty("Callback", vec![ty("i32", vec![])])),
        field("total", "Memo<i32>", ty("Memo", vec![ty("i32", vec![])])),
    ]);
    assert!(check_prop_fields(&s).is_ok());
}

#[test]
fn maybe_signal_prop_field_is_allowed() {
    // `MaybeSignal<T>` is a read-only prop value (static value or reactive
    // source, no `set`), so it is accepted like `ReadSignal`/`Memo`.
    let s = item(vec![
        field("label", "MaybeSignal<String>", ty("MaybeSignal", vec![ty("String", vec![])])),
        field("count", "MaybeSignal<i32>", ty("MaybeSignal", vec![ty("i32", vec![])])),
    ]);
    assert!(check_prop_fields(&s).is_ok());
}

#[test]
fn signal_prop_field_is_rejected() {
    let s = item(vec![field("value", "Signal<i32>", ty("Signal", vec![ty("i32", vec![])]))]);
    let err = check_prop_fields(&s).unwrap_err().message().to_string();
    assert!(err.contains("value"), "should name the field: {err}");
    assert!(err.contains("read-only"), "should explain why: {err}");
}

#[test]
fn writable_memo_prop_field_is_rejected() {
    let s = item(vec![field("value", "WritableMemo<i32>", ty("WritableMemo", vec![ty("i32", vec![])]))]);
    assert!(check_prop_fields(&s).is_err());
}

#[test]
fn path_qualified_signal_prop_field_is_rejected() {
    // `vue_rs_reactive::Signal<i32>`: the last path segment is what counts.
    let s = item(vec![field("value", "vue_rs_reactive::Signal<i32>", ty("Signal", vec![ty("i32", vec![])]))]);
    assert!(check_prop_fields(&s).is_err());
}

#[test]
fn signal_nested_inside_another_type_is_allowed() {
    // An opaque user-defined type's own fields are invisible from here, so a
    // composite that carries signals inside its own definition is allowed.
    let s = item(vec![field("rows", "Vec<Row>", ty("Vec", vec![ty("Row", vec![])]))]);
    assert!(check_prop_fields(&s).is_ok());
}

#[test]
fn signal_inside_vec_prop_field_is_rejected() {
    // `Vec<Signal<i32>>` spells the writable handle out in the prop's own type.
    let s = item(vec![field("rows", "Vec<Signal<i32>>", ty("Vec", vec![ty("Signal", vec![ty("i32", vec![])])]))]);
    let err = check_prop_fields(&s).unwrap_err().message().to_string();
    assert!(err.contains("rows"), "should name the field: {err}");
}

#[test]
fn writable_memo_inside_option_prop_field_is_rejected() {
    let s = item(vec![field(
        "value",
        "Option<WritableMemo<i32>>",
        ty("Option", vec![ty("WritableMemo", vec![ty("i32", vec![])])]),
    )]);
    assert!(check_prop_fields(&s).is_err());
}

#[test]
fn signal_inside_tuple_prop_field_is_rejected() {
    let s = item(vec![field(
        "pair",
        "(Signal<i32>, String)",
        TypeExpr::Tuple(vec![ty("Signal", vec![ty("i32", vec![])]), ty("String", vec![])]),
    )]);
    assert!(check_prop_fields(&s).is_err());
}

#[test]
fn signal_doubly_nested_in_generics_is_rejected() {
    let s = item(vec![field(
        "rows",
        "Vec<Option<Signal<i32>>>",
        ty("Vec", vec![ty("Option", vec![ty("Signal", vec![ty("i32", vec![])])])]),
    )]);
    assert!(check_prop_fields(&s).is_err());
}

#[test]
fn prop_check_message_is_exact() {
    let s = item(vec![field("value", "Signal<i32>", ty("Signal", vec![ty("i32", vec![])]))]);
    let err = check_prop_fields(&s).unwrap_err();
    assert_eq!(
        err.message(),
        "prop `value` has writable reactive type `Signal<…>`; props are read-only — declare it `ReadSignal<…>` (or `Memo<…>`) and send updates back to the parent via an emit callback"
    );
}

#[test]
fn reference_array_slice_and_paren_types_are_looked_through() {
    let sig = || ty("Signal", vec![ty("i32", vec![])]);
    for t in [
        TypeExpr::Reference(Box::new(sig())),
        TypeExpr::Array(Box::new(sig())),
        TypeExpr::Slice(Box::new(sig())),
        TypeExpr::Paren(Box::new(sig())),
        TypeExpr::Group(Box::new(sig())),
    ] {
        assert!(check_prop_fields(&item(vec![field("x", "_", t)])).is_err());
    }
    assert!(check_prop_fields(&item(vec![field("x", "_", TypeExpr::Other)])).is_ok());
}

#[test]
fn unnamed_props_struct_is_not_checked() {
    let mut s = item(vec![]);
    s.fields = FieldsDecl::Unnamed;
    assert!(check_prop_fields(&s).is_ok());
}
