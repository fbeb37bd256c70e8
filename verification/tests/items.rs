//! The generated props builder, slots struct and `#[derive(Reactive)]` output.

use vue_rs::compiler::items::{
    decimal, gen_props_builder, gen_reactive, gen_slots_struct, slot_fields, AttrArgs, AttrDecl, DataDecl,
    DeriveDecl, FieldDecl, FieldsDecl, StructDecl, TypeExpr,
};

fn field(name: &str, ty: &str, attrs: Vec<AttrDecl>) -> FieldDecl {
    FieldDecl { attrs, vis: "pub".to_string(), name: name.to_string(), ty: ty.to_string(), ty_expr: TypeExpr::Other }
}

fn prop_attr(args: &str) -> AttrDecl {
    AttrDecl {
        text: format!("#[prop({args})]"),
        ident: Some("prop".to_string()),
        args: AttrArgs::List(args.to_string()),
    }
}

fn decl(name: &str, fields: FieldsDecl) -> StructDecl {
    StructDecl {
        attrs: Vec::new(),
        vis: "pub".to_string(),
        name: name.to_string(),
        generics: String::new(),
        has_params: false,
        where_clause: String::new(),
        fields,
        text: String::new(),
    }
}

fn lexes_to(text: &str, expected: &str) {
    let a: proc_macro2::TokenStream = text.parse().unwrap();
    let b: proc_macro2::TokenStream = expected.parse().unwrap();
    assert_eq!(a.to_string(), b.to_string());
}

#[test]
fn props_builder_has_a_marker_per_required_prop() {
    let item = decl(
        "P",
        FieldsDecl::Named(
            vec![
                field("a", "i32", vec![]),
                field("b", "String", vec![prop_attr("default")]),
                field("c", "u8", vec![prop_attr("default = 7")]),
            ],
            false,
        ),
    );
    let out = gen_props_builder(&item).unwrap();
    lexes_to(
        &out,
        r#"pub struct P { pub a: i32, pub b: String, pub c: u8 }
        #[allow(non_camel_case_types)]
        pub struct PBuilder < __M0 > {
            a: ::core::option::Option< i32 >,
            b: ::core::option::Option< String >,
            c: ::core::option::Option< u8 >
            , __markers: ::core::marker::PhantomData<( __M0 )>
        }
        impl P {
            #[allow(dead_code)]
            pub fn builder() -> PBuilder < ::vue_rs_dom::builder::Unset > {
                PBuilder { a: ::core::option::Option::None, b: ::core::option::Option::None, c: ::core::option::Option::None
                    , __markers: ::core::marker::PhantomData }
            }
        }
        impl<  > PBuilder< ::vue_rs_dom::builder::Unset > {
            #[allow(dead_code)]
            pub fn a(self, value: i32 ) -> PBuilder< ::vue_rs_dom::builder::Set > {
                PBuilder { a: ::core::option::Option::Some(value), b: self.b, c: self.c, __markers: ::core::marker::PhantomData }
            }
        }
        impl < __M0 > PBuilder < __M0 > {
            #[allow(dead_code)]
            pub fn b(mut self, value: String ) -> Self { self.b = ::core::option::Option::Some(value); self }
        }
        impl < __M0 > PBuilder < __M0 > {
            #[allow(dead_code)]
            pub fn c(mut self, value: u8 ) -> Self { self.c = ::core::option::Option::Some(value); self }
        }
        impl PBuilder < ::vue_rs_dom::builder::Set > {
            #[allow(dead_code)]
            pub fn build(self) -> P {
                P {
                    a: ::core::option::Option::unwrap(self.a),
                    b: ::core::option::Option::unwrap_or_else(self.b, || ::core::default::Default::default()),
                    c: ::core::option::Option::unwrap_or_else(self.c, || 7 )
                }
            }
        }"#,
    );
    let _: syn::File = syn::parse_str(&out).expect("valid Rust");
}

#[test]
fn props_builder_errors() {
    let mut item = decl("P", FieldsDecl::Unnamed);
    assert_eq!(gen_props_builder(&item).unwrap_err(), "props struct `P` must have named fields");
    item.has_params = true;
    assert_eq!(gen_props_builder(&item).unwrap_err(), "generic props struct `P` is not supported");
    let bad = AttrDecl {
        text: "#[prop]".to_string(),
        ident: Some("prop".to_string()),
        args: AttrArgs::NotList("expected attribute arguments in parentheses: #[prop(...)]".to_string()),
    };
    let item = decl("P", FieldsDecl::Named(vec![field("a", "i32", vec![bad])], false));
    assert_eq!(
        gen_props_builder(&item).unwrap_err(),
        "invalid `#[prop(...)]` on `a`: expected attribute arguments in parentheses: #[prop(...)]"
    );
    let item = decl("P", FieldsDecl::Named(vec![field("a", "i32", vec![prop_attr("default = ")])], false));
    assert!(gen_props_builder(&item).unwrap_err().starts_with("invalid `#[prop(...)]` on `a`: "));
}

#[test]
fn two_required_props_flip_their_own_markers() {
    let item = decl(
        "Q",
        FieldsDecl::Named(vec![field("x", "i32", vec![]), field("y", "i32", vec![])], true),
    );
    let out = gen_props_builder(&item).unwrap();
    assert!(out.contains("impl< __M1 > QBuilder< ::vue_rs_dom::builder::Unset, __M1 >"), "{out}");
    assert!(out.contains("impl< __M0 > QBuilder< __M0, ::vue_rs_dom::builder::Unset >"), "{out}");
    assert!(out.contains("QBuilder < ::vue_rs_dom::builder::Set, ::vue_rs_dom::builder::Set >"), "{out}");
    let _: syn::File = syn::parse_str(&out).expect("valid Rust");
}

#[test]
fn slots_struct_without_slots_is_a_unit_struct() {
    let (def, param) = gen_slots_struct("CardSlots", &Vec::new());
    assert_eq!(param, ", __slots: CardSlots");
    lexes_to(
        &def,
        r#"#[allow(non_camel_case_types)]
        pub struct CardSlots;
        impl ::core::default::Default for CardSlots { fn default() -> Self { CardSlots } }
        impl CardSlots { pub fn for_backend<B: ::vue_rs_dom::Backend>(_backend: &B) -> Self { CardSlots } }"#,
    );
}

#[test]
fn slots_struct_has_a_field_and_setter_per_slot() {
    let defs = vec![("default".to_string(), "()".to_string()), ("item".to_string(), "Row".to_string())];
    let (def, param) = gen_slots_struct("ListSlots", &defs);
    assert_eq!(param, ", __slots: ListSlots<B>");
    assert!(def.contains("pub default: ::core::option::Option< ::vue_rs_dom::SlotFn<B, () >>"), "{def}");
    assert!(def.contains("pub fn with_item(mut self, builder: impl Fn(B, Row ) -> B::Node + 'static) -> Self"), "{def}");
    let _: syn::File = syn::parse_str(&def).expect("valid Rust");
}

#[test]
fn slot_fields_are_sorted_by_name() {
    let slots = decl(
        "S",
        FieldsDecl::Named(
            vec![field("zeta", "Z", vec![]), field("alpha", "A", vec![]), field("mid", "M", vec![])],
            false,
        ),
    );
    let fields = slot_fields(&slots);
    let names: Vec<&str> = fields.iter().map(|(n, _)| n.as_str()).collect();
    assert_eq!(names, vec!["alpha", "mid", "zeta"]);
    assert_eq!(fields[0].1, "A");
}

#[test]
fn derive_reactive_generates_companion_and_readonly_view() {
    let reactive = AttrDecl {
        text: "#[reactive]".to_string(),
        ident: Some("reactive".to_string()),
        args: AttrArgs::NotList("expected attribute arguments in parentheses: #[reactive(...)]".to_string()),
    };
    let input = DeriveDecl {
        vis: "pub".to_string(),
        name: "State".to_string(),
        has_params: false,
        data: DataDecl::Struct(FieldsDecl::Named(
            vec![field("count", "i32", vec![]), field("inner", "Inner", vec![reactive])],
            false,
        )),
    };
    let out = gen_reactive(&input).unwrap();
    lexes_to(
        &out,
        r#"#[derive(Clone, Copy)]
        pub struct StateReactive {
            pub count: ::vue_rs_reactive::Signal< i32 >,
            pub inner: < Inner as ::vue_rs_reactive::Reactive > ::Target,
        }
        #[derive(Clone, Copy)]
        pub struct StateReadonly {
            pub count: < ::vue_rs_reactive::Signal< i32 > as ::vue_rs_reactive::Readonly > ::Target,
            pub inner: < < Inner as ::vue_rs_reactive::Reactive > ::Target as ::vue_rs_reactive::Readonly > ::Target,
        }
        impl ::vue_rs_reactive::Reactive for State {
            type Target = StateReactive;
            fn into_reactive(self) -> Self::Target {
                StateReactive {
                    count: ::vue_rs_reactive::signal(self.count),
                    inner: ::vue_rs_reactive::reactive(self.inner),
                }
            }
        }
        impl ::vue_rs_reactive::Readonly for StateReactive {
            type Target = StateReadonly;
            fn into_readonly(self) -> Self::Target {
                StateReadonly {
                    count: ::vue_rs_reactive::readonly(self.count),
                    inner: ::vue_rs_reactive::readonly(self.inner),
                }
            }
        }
        impl ::core::convert::From< StateReactive > for StateReadonly {
            fn from(companion: StateReactive) -> Self { ::vue_rs_reactive::readonly(companion) }
        }"#,
    );
    let _: syn::File = syn::parse_str(&out).expect("valid Rust");
}

#[test]
fn derive_reactive_refusals() {
    let mut input = DeriveDecl {
        vis: String::new(),
        name: "S".to_string(),
        has_params: true,
        data: DataDecl::Enum,
    };
    assert_eq!(gen_reactive(&input).unwrap_err(), "#[derive(Reactive)] does not support generic structs");
    input.has_params = false;
    assert_eq!(gen_reactive(&input).unwrap_err(), "#[derive(Reactive)] can only be applied to structs");
    input.data = DataDecl::Struct(FieldsDecl::Unit);
    assert_eq!(gen_reactive(&input).unwrap_err(), "#[derive(Reactive)] requires a struct with named fields");
}

#[test]
fn decimal_spells_numbers() {
    assert_eq!(decimal(0), "0");
    assert_eq!(decimal(7), "7");
    assert_eq!(decimal(10), "10");
    assert_eq!(decimal(1234), "1234");
}
