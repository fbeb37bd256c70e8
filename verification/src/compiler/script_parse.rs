//! Reading a component's rewritten `<script>` body with `syn`: the statements
//! of the body, each converted into the library's item model.
//!
//! `syn` does the parsing; the functions here only move what its syntax trees
//! hold into the library's own types, one syn value to one library value. The
//! decisions about the statements (which struct is the props struct, what a
//! `#[prop ..]` attribute means, which field types are writable handles) are
//! the library's, in `items` and `component`.
use vstd::prelude::*;
use syn::parse::Parser;
use crate::compiler::items::{AttrArgs, AttrDecl, FieldDecl, FieldsDecl, ScriptItem, StructDecl, TypeExpr};

verus! {

#[verifier::external_type_specification]
#[verifier::external_body]
pub struct ExSynStmt(syn::Stmt);

#[verifier::external_type_specification]
#[verifier::external_body]
pub struct ExSynItemStruct(syn::ItemStruct);

#[verifier::external_type_specification]
#[verifier::external_body]
pub struct ExSynFields(syn::Fields);

#[verifier::external_type_specification]
#[verifier::external_body]
pub struct ExSynField(syn::Field);

#[verifier::external_type_specification]
#[verifier::external_body]
pub struct ExSynAttribute(syn::Attribute);

#[verifier::external_type_specification]
#[verifier::external_body]
pub struct ExSynType(syn::Type);

#[verifier::external_type_specification]
#[verifier::external_body]
pub struct ExSynTypePath(syn::TypePath);

#[verifier::external_type_specification]
#[verifier::external_body]
pub struct ExSynGenericArgument(syn::GenericArgument);

/// `syn::Block::parse_within` run over all of `text` on proc-macro2's
/// fallback: the statements, each converted into the library's item model
/// (spellings are the fallback `TokenStream`'s `Display`), or syn's error
/// message.
pub uninterp spec fn script_items_parsed(text: Seq<char>) -> Result<Seq<ScriptItem>, Seq<char>>;

/// Parses `text` as the statements of a block with
/// `syn::Block::parse_within`, with proc-macro2's fallback implementation
/// forced for the call, and converts each statement. Which texts parse, and
/// the items that come out, are syn's: the contract names them.
#[verifier::external_body]
pub(crate) fn parse_script_items(text: &str) -> (r: Result<Vec<ScriptItem>, String>)
    ensures
        match r {
            Ok(v) => script_items_parsed(text@) == Ok::<Seq<ScriptItem>, Seq<char>>(v@),
            Err(e) => script_items_parsed(text@) == Err::<Seq<ScriptItem>, Seq<char>>(e@),
        },
{
    proc_macro2::fallback::force();
    let r = match syn::Block::parse_within.parse_str(text) {
        Ok(stmts) => Ok(stmts.into_iter().map(script_item).collect()),
        Err(e) => Err(e.to_string()),
    };
    proc_macro2::fallback::unforce();
    r
}

/// Converts one parsed statement: a `use` item and a struct declaration by
/// their kind, anything else by its spelling.
#[verifier::external_body]
fn script_item(stmt: syn::Stmt) -> ScriptItem {
    match stmt {
        syn::Stmt::Item(syn::Item::Use(item)) => ScriptItem::Use(quote::ToTokens::to_token_stream(&item).to_string()),
        syn::Stmt::Item(syn::Item::Struct(item)) => ScriptItem::Struct(struct_decl(&item)),
        other => ScriptItem::Other(quote::ToTokens::to_token_stream(&other).to_string()),
    }
}

/// Converts a struct declaration: its parts' spellings, whether it declares
/// generic parameters, and its fields.
#[verifier::external_body]
fn struct_decl(item: &syn::ItemStruct) -> StructDecl {
    StructDecl {
        attrs: item.attrs.iter().map(|a| quote::ToTokens::to_token_stream(a).to_string()).collect(),
        vis: quote::ToTokens::to_token_stream(&item.vis).to_string(),
        name: item.ident.to_string(),
        generics: quote::ToTokens::to_token_stream(&item.generics).to_string(),
        has_params: !item.generics.params.is_empty(),
        where_clause: quote::ToTokens::to_token_stream(&item.generics.where_clause).to_string(),
        fields: fields_decl(&item.fields),
        text: quote::ToTokens::to_token_stream(item).to_string(),
    }
}

/// Converts a struct's fields, one syn variant to one library variant.
#[verifier::external_body]
fn fields_decl(fields: &syn::Fields) -> FieldsDecl {
    match fields {
        syn::Fields::Named(n) => FieldsDecl::Named(n.named.iter().map(field_decl).collect(), n.named.trailing_punct()),
        syn::Fields::Unnamed(_) => FieldsDecl::Unnamed,
        syn::Fields::Unit => FieldsDecl::Unit,
    }
}

/// Converts a named field: its attributes, the spellings of its visibility,
/// name and type, and its type as a tree.
#[verifier::external_body]
fn field_decl(field: &syn::Field) -> FieldDecl {
    FieldDecl {
        attrs: field.attrs.iter().map(attr_decl).collect(),
        vis: quote::ToTokens::to_token_stream(&field.vis).to_string(),
        name: field.ident.as_ref().map(|i| i.to_string()).unwrap_or_default(),
        ty: quote::ToTokens::to_token_stream(&field.ty).to_string(),
        ty_expr: type_expr(&field.ty),
    }
}

/// Converts an outer attribute: its spelling, its path when that is one
/// identifier (`Path::get_ident`), and its arguments as
/// `Attribute::parse_args::<TokenStream>` reads them (the tokens' spelling, or
/// syn's message for an attribute without parenthesized arguments).
#[verifier::external_body]
fn attr_decl(attr: &syn::Attribute) -> AttrDecl {
    AttrDecl {
        text: quote::ToTokens::to_token_stream(attr).to_string(),
        ident: attr.path().get_ident().map(|i| i.to_string()),
        args: match attr.parse_args::<proc_macro2::TokenStream>() {
            Ok(ts) => AttrArgs::List(ts.to_string()),
            Err(e) => AttrArgs::NotList(e.to_string()),
        },
    }
}

/// Converts a type into the library's tree, one syn variant to one library
/// variant, every other kind of type to `Other`.
#[verifier::external_body]
fn type_expr(ty: &syn::Type) -> TypeExpr {
    match ty {
        syn::Type::Path(p) => path_type_expr(p),
        syn::Type::Tuple(t) => TypeExpr::Tuple(t.elems.iter().map(type_expr).collect()),
        syn::Type::Reference(r) => TypeExpr::Reference(Box::new(type_expr(&r.elem))),
        syn::Type::Array(a) => TypeExpr::Array(Box::new(type_expr(&a.elem))),
        syn::Type::Slice(s) => TypeExpr::Slice(Box::new(type_expr(&s.elem))),
        syn::Type::Paren(p) => TypeExpr::Paren(Box::new(type_expr(&p.elem))),
        syn::Type::Group(g) => TypeExpr::Group(Box::new(type_expr(&g.elem))),
        _ => TypeExpr::Other,
    }
}

/// Converts a path type: its last segment's name and, when that segment has
/// `<..>` arguments, each of them.
#[verifier::external_body]
fn path_type_expr(p: &syn::TypePath) -> TypeExpr {
    let last = p.path.segments.last();
    TypeExpr::Path {
        last: last.map(|seg| seg.ident.to_string()),
        args: last.and_then(|seg| match &seg.arguments {
            syn::PathArguments::AngleBracketed(a) => Some(a.args.iter().map(generic_arg_expr).collect()),
            _ => None,
        }),
    }
}

/// Converts a generic argument: a type argument's tree, `None` for any other
/// kind.
#[verifier::external_body]
fn generic_arg_expr(arg: &syn::GenericArgument) -> Option<TypeExpr> {
    match arg {
        syn::GenericArgument::Type(t) => Some(type_expr(t)),
        _ => None,
    }
}

} // verus!
