//! The parts of a component's `<script>` the component compiler reads: `use`
//! items, struct declarations (the `NameProps` and `NameSlots` structs among
//! them) and the remaining statements, each with its Rust spelling. Field
//! types are also given as a tree, as far as prop checking reads them.
use vstd::prelude::*;
use crate::sfc::CompileError;
use crate::text::{cat3, lemma_filter_take_step, str_eq};
use crate::compiler::script::{
    lemma_toks_view_index, lex_tokens, render_from, render_stream, tok_view, toks_view, tokens_lexed, Tok, TokV,
};
use crate::compiler::tokens::{expr_parsed, ident_parsed, nothing_parsed, parse_expr_tokens, parse_ident, parse_nothing};

verus! {

/// A Rust type, as far as prop checking reads it.
pub enum TypeExpr {
    /// A path type: its last segment's name (when the path has a segment) and,
    /// when that segment has `<..>` arguments, each argument: the type for a
    /// type argument, `None` for any other kind.
    Path { last: Option<String>, args: Option<Vec<Option<TypeExpr>>> },
    /// A tuple type.
    Tuple(Vec<TypeExpr>),
    /// A reference `&T`.
    Reference(Box<TypeExpr>),
    /// An array `[T; N]`.
    Array(Box<TypeExpr>),
    /// A slice `[T]`.
    Slice(Box<TypeExpr>),
    /// A parenthesized type `(T)`.
    Paren(Box<TypeExpr>),
    /// An invisible group around a type.
    Group(Box<TypeExpr>),
    /// Any other type.
    Other,
}

/// The first writable handle among the type arguments from `k` on.
pub open spec fn handle_in_args(args: Seq<Option<TypeExpr>>, k: int) -> Option<Seq<char>>
    decreases args, args.len() - k + 1,
{
    if k < 0 || k >= args.len() {
        None
    } else {
        match args[k] {
            Some(t) => match handle_in(t) {
                Some(h) => Some(h),
                None => handle_in_args(args, k + 1),
            },
            None => handle_in_args(args, k + 1),
        }
    }
}

/// The first writable handle among the types from `k` on.
pub open spec fn handle_in_elems(elems: Seq<TypeExpr>, k: int) -> Option<Seq<char>>
    decreases elems, elems.len() - k + 1,
{
    if k < 0 || k >= elems.len() {
        None
    } else {
        match handle_in(elems[k]) {
            Some(h) => Some(h),
            None => handle_in_elems(elems, k + 1),
        }
    }
}

/// If a writable handle (`Signal` / `WritableMemo`) is spelled anywhere in the
/// type's own expression, that handle's name. A path's last segment is
/// checked first, then its type arguments in order; tuples, references,
/// arrays, slices and parentheses are looked through.
pub open spec fn handle_in(t: TypeExpr) -> Option<Seq<char>>
    decreases t, 0int,
{
    match t {
        TypeExpr::Path { last, args } => match last {
            None => None,
            Some(seg) => if seg@ == "Signal"@ {
                Some("Signal"@)
            } else if seg@ == "WritableMemo"@ {
                Some("WritableMemo"@)
            } else {
                match args {
                    None => None,
                    Some(a) => handle_in_args(a@, 0),
                }
            },
        },
        TypeExpr::Tuple(elems) => handle_in_elems(elems@, 0),
        TypeExpr::Reference(inner) => handle_in(*inner),
        TypeExpr::Array(inner) => handle_in(*inner),
        TypeExpr::Slice(inner) => handle_in(*inner),
        TypeExpr::Paren(inner) => handle_in(*inner),
        TypeExpr::Group(inner) => handle_in(*inner),
        TypeExpr::Other => None,
    }
}

/// If a writable handle (`Signal` / `WritableMemo`) appears anywhere in the
/// type's own expression, that handle's name.
pub fn writable_handle_name(ty: &TypeExpr) -> (r: Option<&'static str>)
    ensures
        match r {
            Some(h) => handle_in(*ty) == Some(h@),
            None => handle_in(*ty) is None,
        },
    decreases ty, 1int,
{
    match ty {
        TypeExpr::Path { last, args } => match last {
            None => None,
            Some(seg) => {
                if str_eq(seg.as_str(), "Signal") {
                    Some("Signal")
                } else if str_eq(seg.as_str(), "WritableMemo") {
                    Some("WritableMemo")
                } else {
                    match args {
                        None => None,
                        Some(a) => handle_in_arg_list(a),
                    }
                }
            },
        },
        TypeExpr::Tuple(elems) => handle_in_elem_list(elems),
        TypeExpr::Reference(inner) => writable_handle_name(inner),
        TypeExpr::Array(inner) => writable_handle_name(inner),
        TypeExpr::Slice(inner) => writable_handle_name(inner),
        TypeExpr::Paren(inner) => writable_handle_name(inner),
        TypeExpr::Group(inner) => writable_handle_name(inner),
        TypeExpr::Other => None,
    }
}

/// The first writable handle among a path's type arguments.
fn handle_in_arg_list(args: &Vec<Option<TypeExpr>>) -> (r: Option<&'static str>)
    ensures
        match r {
            Some(h) => handle_in_args(args@, 0) == Some(h@),
            None => handle_in_args(args@, 0) is None,
        },
    decreases args@, 0int,
{
    let mut k: usize = 0;
    while k < args.len()
        invariant
            k <= args@.len(),
            handle_in_args(args@, 0) == handle_in_args(args@, k as int),
        decreases args@.len() - k,
    {
        match &args[k] {
            Some(t) => {
                assert(decreases_to!(args@ => args@[k as int]));
                assert(decreases_to!(args@[k as int] => args@[k as int]->Some_0));
                match writable_handle_name(t) {
                    Some(h) => return Some(h),
                    None => {},
                }
            },
            None => {},
        }
        k += 1;
    }
    None
}

/// The first writable handle among a tuple's element types.
fn handle_in_elem_list(elems: &Vec<TypeExpr>) -> (r: Option<&'static str>)
    ensures
        match r {
            Some(h) => handle_in_elems(elems@, 0) == Some(h@),
            None => handle_in_elems(elems@, 0) is None,
        },
    decreases elems@, 0int,
{
    let mut k: usize = 0;
    while k < elems.len()
        invariant
            k <= elems@.len(),
            handle_in_elems(elems@, 0) == handle_in_elems(elems@, k as int),
        decreases elems@.len() - k,
    {
        assert(decreases_to!(elems@ => elems@[k as int]));
        match writable_handle_name(&elems[k]) {
            Some(h) => return Some(h),
            None => {},
        }
        k += 1;
    }
    None
}

} // verus!

verus! {

/// How an optional prop's value is filled when the parent omits it.
pub enum PropDefault {
    /// `#[prop(default)]`: use `Default::default()`.
    Auto,
    /// `#[prop(default = expr)]`: use `expr` (its Rust spelling).
    Expr(String),
}

/// An outer attribute of a field.
pub struct AttrDecl {
    /// The attribute as spelled, `#[..]`.
    pub text: String,
    /// The attribute's path when it is a single identifier (`prop`, `reactive`).
    pub ident: Option<String>,
    /// Its arguments.
    pub args: AttrArgs,
}

/// A named field of a struct.
pub struct FieldDecl {
    /// Its outer attributes, in order.
    pub attrs: Vec<AttrDecl>,
    /// Its visibility as spelled (empty when private).
    pub vis: String,
    /// Its name.
    pub name: String,
    /// Its type as spelled.
    pub ty: String,
    /// Its type as a tree.
    pub ty_expr: TypeExpr,
}

/// An attribute's arguments as written.
pub enum AttrArgs {
    /// `#[path(..)]`: the spelling of the tokens inside the parentheses.
    List(String),
    /// Another form (`#[path]`, `#[path = ..]`): the message for reading it as
    /// a parenthesized list.
    NotList(String),
}

/// How an optional prop's value is filled, as a value.
pub enum PropDefaultV {
    Auto,
    Expr(Seq<char>),
}

/// The value of a prop default.
pub open spec fn pd_one(d: PropDefault) -> PropDefaultV {
    match d {
        PropDefault::Auto => PropDefaultV::Auto,
        PropDefault::Expr(e) => PropDefaultV::Expr(e@),
    }
}

/// The view of a prop default.
pub open spec fn pd_view(d: Result<Option<PropDefault>, String>) -> Result<Option<PropDefaultV>, Seq<char>> {
    match d {
        Ok(None) => Ok(None),
        Ok(Some(x)) => Ok(Some(pd_one(x))),
        Err(e) => Err(e@),
    }
}

/// One `#[prop ..]` attribute read as its parser reads it: an identifier
/// first (syn's `Ident` parse of the first token, or of nothing), which must
/// be `default`; then either nothing (`Auto`), `=` and an expression (its
/// parsed spelling), or tokens that syn refuses as left over.
pub open spec fn prop_arg_default(a: AttrArgs) -> Result<PropDefaultV, Seq<char>> {
    match a {
        AttrArgs::NotList(m) => Err(m@),
        AttrArgs::List(text) => match tokens_lexed(text@) {
            Err(e) => Err(e),
            Ok(ts) => match ident_parsed(if ts.len() == 0 { Seq::<char>::empty() } else { render_from(ts.take(1), 0) }) {
                Err(e) => Err(e),
                Ok(id) => if id != "default"@ {
                    Err("expected `default`"@)
                } else if ts.len() <= 1 {
                    Ok(PropDefaultV::Auto)
                } else if ts[1] matches TokV::Punct(c, _) && c == '=' {
                    match expr_parsed(render_from(ts.skip(2), 0)) {
                        Ok(t) => Ok(PropDefaultV::Expr(t)),
                        Err(e) => Err(e),
                    }
                } else {
                    match nothing_parsed(render_from(ts.skip(1), 0)) {
                        Some(e) => Err(e),
                        None => Ok(PropDefaultV::Auto),
                    }
                },
            },
        },
    }
}

/// The message for a `#[prop ..]` attribute of field `name` that does not read.
pub open spec fn prop_error_msg(name: Seq<char>, e: Seq<char>) -> Seq<char> {
    "invalid `#[prop(...)]` on `"@ + name + "`: "@ + e
}

/// The reading of the `#[prop ..]` attributes among `attrs` from `k` on,
/// `found` being the last default read so far: the last one's default, or the
/// message for the first one that does not read.
pub open spec fn props_default(name: Seq<char>, attrs: Seq<AttrDecl>, k: int, found: Option<PropDefaultV>) -> Result<
    Option<PropDefaultV>,
    Seq<char>,
>
    decreases attrs.len() - k,
{
    if k < 0 || k >= attrs.len() {
        Ok(found)
    } else if !attr_named(attrs[k], "prop"@) {
        props_default(name, attrs, k + 1, found)
    } else {
        match prop_arg_default(attrs[k].args) {
            Err(e) => Err(prop_error_msg(name, e)),
            Ok(d) => props_default(name, attrs, k + 1, Some(d)),
        }
    }
}

/// A field's default as its `#[prop ..]` attributes give it: none for a
/// required prop, or why an attribute does not read.
pub open spec fn field_default(f: FieldDecl) -> Result<Option<PropDefaultV>, Seq<char>> {
    props_default(f.name@, f.attrs@, 0, None)
}

/// The fields of a struct.
pub enum FieldsDecl {
    /// `{ .. }` fields, and whether the last one is followed by a comma.
    Named(Vec<FieldDecl>, bool),
    /// `( .. )` fields.
    Unnamed,
    /// No fields.
    Unit,
}

/// A struct declaration.
pub struct StructDecl {
    /// Its outer attributes, each as spelled.
    pub attrs: Vec<String>,
    /// Its visibility as spelled.
    pub vis: String,
    /// Its name.
    pub name: String,
    /// Its generics as spelled (`<..>`, or empty).
    pub generics: String,
    /// Whether it declares generic parameters.
    pub has_params: bool,
    /// Its `where` clause as spelled (or empty).
    pub where_clause: String,
    /// Its fields.
    pub fields: FieldsDecl,
    /// The whole declaration as spelled.
    pub text: String,
}

/// A statement of a component's `<script>` body.
pub enum ScriptItem {
    /// A `use` item, as spelled.
    Use(String),
    /// A struct declaration.
    Struct(StructDecl),
    /// Any other statement, as spelled.
    Other(String),
}

/// The message for a prop field whose type spells a writable handle.
pub open spec fn writable_prop_msg(name: Seq<char>, handle: Seq<char>) -> Seq<char> {
    "prop `"@ + name + "` has writable reactive type `"@ + handle
        + "<…>`; props are read-only — declare it `ReadSignal<…>` (or `Memo<…>`) and send updates back to the parent via an emit callback"@
}

/// The first prop field from `k` on whose type spells a writable handle.
pub open spec fn prop_fields_check(fields: Seq<FieldDecl>, k: int) -> Result<(), Seq<char>>
    decreases fields.len() - k,
{
    if k < 0 || k >= fields.len() {
        Ok(())
    } else {
        match handle_in(fields[k].ty_expr) {
            Some(h) => Err(writable_prop_msg(fields[k].name@, h)),
            None => prop_fields_check(fields, k + 1),
        }
    }
}

/// The props check: no named field's type spells a writable handle.
pub open spec fn props_check(props: StructDecl) -> Result<(), Seq<char>> {
    match props.fields {
        FieldsDecl::Named(fields, _) => prop_fields_check(fields@, 0),
        _ => Ok(()),
    }
}

/// Whether field `j` of `fields` has a type that spells a writable handle.
pub open spec fn writable_at(fields: Seq<FieldDecl>, j: int) -> bool {
    handle_in(fields[j].ty_expr) is Some
}

/// `prop_fields_check` from `k` fails exactly when a field from `k` on has a
/// writable handle, with the message for the first such field.
#[verifier::spinoff_prover]
#[verifier::rlimit(80)]
proof fn lemma_prop_fields_check(fields: Seq<FieldDecl>, k: int)
    requires
        0 <= k <= fields.len(),
    ensures
        prop_fields_check(fields, k) is Err <==> exists|j: int| k <= j < fields.len() && #[trigger] writable_at(fields, j),
        prop_fields_check(fields, k) matches Err(m) ==> exists|j: int| {
            &&& k <= j < fields.len()
            &&& (forall|i: int| k <= i < j ==> !#[trigger] writable_at(fields, i))
            &&& #[trigger] writable_at(fields, j)
            &&& m == writable_prop_msg(fields[j].name@, handle_in(fields[j].ty_expr)->0)
        },
    decreases fields.len() - k,
{
    if k < fields.len() {
        lemma_prop_fields_check(fields, k + 1);
        if !writable_at(fields, k) {
            assert(handle_in(fields[k].ty_expr) is None);
            assert(prop_fields_check(fields, k) == prop_fields_check(fields, k + 1));
            assert((exists|j: int| k <= j < fields.len() && #[trigger] writable_at(fields, j))
                == (exists|j: int| k + 1 <= j < fields.len() && #[trigger] writable_at(fields, j)));
        } else {
            assert(prop_fields_check(fields, k) == Err::<(), Seq<char>>(
                writable_prop_msg(fields[k].name@, handle_in(fields[k].ty_expr)->0)));
        }
    }
}

/// Props are read-only: a props struct with named fields is refused exactly
/// when some field's type spells `Signal` or `WritableMemo` (anywhere among
/// its generic type arguments, tuples, references, arrays, slices, parens and
/// groups), and the message names the first such field and its handle.
pub proof fn law_props_refuse_writable_handles(props: StructDecl)
    ensures
        props.fields matches FieldsDecl::Named(fields, _) ==> {
            let fs = fields@;
            &&& props_check(props) is Err <==> exists|j: int| 0 <= j < fs.len() && #[trigger] writable_at(fs, j)
            &&& props_check(props) matches Err(m) ==> exists|j: int| {
                &&& 0 <= j < fs.len()
                &&& (forall|i: int| 0 <= i < j ==> !#[trigger] writable_at(fs, i))
                &&& #[trigger] writable_at(fs, j)
                &&& m == writable_prop_msg(fs[j].name@, handle_in(fs[j].ty_expr)->0)
            }
        },
{
    match props.fields {
        FieldsDecl::Named(fields, _) => lemma_prop_fields_check(fields@, 0),
        _ => {},
    }
}

/// Reject props whose type spells out a writable reactive handle
/// (`Signal` / `WritableMemo`) anywhere in its own type expression, so a
/// child observes props but cannot mutate parent state through them. The
/// check looks through generic arguments, tuples, arrays, slices and
/// references; it cannot see inside a user-defined type's own fields.
pub fn check_prop_fields(props: &StructDecl) -> (r: Result<(), CompileError>)
    ensures
        match r {
            Ok(()) => props_check(*props) is Ok,
            Err(e) => props_check(*props) == Err::<(), Seq<char>>(e.0@),
        },
{
    let fields = match &props.fields {
        FieldsDecl::Named(fields, _) => fields,
        _ => return Ok(()),
    };
    let mut k: usize = 0;
    while k < fields.len()
        invariant
            k <= fields@.len(),
            props.fields matches FieldsDecl::Named(fs, _) && fs@ == fields@,
            prop_fields_check(fields@, 0) == prop_fields_check(fields@, k as int),
        decreases fields@.len() - k,
    {
        match writable_handle_name(&fields[k].ty_expr) {
            Some(handle) => {
                let mut m = cat3("prop `", fields[k].name.as_str(), "` has writable reactive type `");
                m.append(handle);
                m.append(
                    "<…>`; props are read-only — declare it `ReadSignal<…>` (or `Memo<…>`) and send updates back to the parent via an emit callback",
                );
                return Err(CompileError(m));
            },
            None => {},
        }
        k += 1;
    }
    Ok(())
}

} // verus!

verus! {

/// `a` sorts strictly before `b`: lexicographic order by character (the order
/// of `String`'s comparison, as UTF-8 byte order is code point order).
pub open spec fn chars_lt(a: Seq<char>, b: Seq<char>) -> bool
    decreases a.len(),
{
    if a.len() == 0 {
        b.len() > 0
    } else if b.len() == 0 {
        false
    } else if a[0] != b[0] {
        a[0] < b[0]
    } else {
        chars_lt(a.drop_first(), b.drop_first())
    }
}

/// Whether `a` sorts strictly before `b`.
pub fn str_lt(a: &str, b: &str) -> (r: bool)
    ensures
        r == chars_lt(a@, b@),
{
    let av = crate::text::chars_of(a);
    let bv = crate::text::chars_of(b);
    let mut i: usize = 0;
    assert(a@.skip(0) =~= a@);
    assert(b@.skip(0) =~= b@);
    while i < av.len() && i < bv.len() && av[i] == bv[i]
        invariant
            i <= av@.len(),
            i <= bv@.len(),
            av@ == a@,
            bv@ == b@,
            chars_lt(a@, b@) == chars_lt(a@.skip(i as int), b@.skip(i as int)),
        decreases av@.len() - i,
    {
        assert(a@.skip(i as int).drop_first() =~= a@.skip(i + 1));
        assert(b@.skip(i as int).drop_first() =~= b@.skip(i + 1));
        i += 1;
    }
    if i == av.len() {
        i < bv.len()
    } else if i == bv.len() {
        false
    } else {
        av[i] < bv[i]
    }
}

/// `s` (sorted) with `x` inserted after every entry whose name does not sort
/// after `x`'s: one step of a stable sort by name.
pub open spec fn insert_by_name(s: Seq<(Seq<char>, Seq<char>)>, x: (Seq<char>, Seq<char>)) -> Seq<(Seq<char>, Seq<char>)>
    decreases s.len(),
{
    if s.len() == 0 {
        seq![x]
    } else if chars_lt(x.0, s.last().0) {
        insert_by_name(s.drop_last(), x).push(s.last())
    } else {
        s.push(x)
    }
}

/// `s` stably sorted by name.
pub open spec fn sort_by_name(s: Seq<(Seq<char>, Seq<char>)>) -> Seq<(Seq<char>, Seq<char>)>
    decreases s.len(),
{
    if s.len() == 0 {
        seq![]
    } else {
        insert_by_name(sort_by_name(s.drop_last()), s.last())
    }
}

/// No entry's name sorts strictly before the name of an entry ahead of it.
pub open spec fn sorted_by_name(s: Seq<(Seq<char>, Seq<char>)>) -> bool {
    forall|i: int, j: int| 0 <= i < j < s.len() ==> !chars_lt(#[trigger] s[j].0, #[trigger] s[i].0)
}

/// `chars_lt` is a strict total order.
proof fn lemma_chars_lt_total(a: Seq<char>, b: Seq<char>)
    ensures
        chars_lt(a, b) || chars_lt(b, a) || a == b,
        !(chars_lt(a, b) && chars_lt(b, a)),
    decreases a.len(),
{
    if a.len() > 0 && b.len() > 0 && a[0] == b[0] {
        lemma_chars_lt_total(a.drop_first(), b.drop_first());
        if a.drop_first() == b.drop_first() {
            assert(a =~= seq![a[0]] + a.drop_first());
            assert(b =~= seq![b[0]] + b.drop_first());
        }
    } else if a.len() == 0 && b.len() == 0 {
        assert(a =~= b);
    }
}

/// `chars_lt` is transitive.
proof fn lemma_chars_lt_trans(a: Seq<char>, b: Seq<char>, c: Seq<char>)
    requires
        chars_lt(a, b),
        chars_lt(b, c),
    ensures
        chars_lt(a, c),
    decreases a.len(),
{
    if a.len() > 0 && a[0] == b[0] && b[0] == c[0] {
        lemma_chars_lt_trans(a.drop_first(), b.drop_first(), c.drop_first());
    }
}

/// Not sorting after is transitive.
proof fn lemma_chars_le_trans(a: Seq<char>, b: Seq<char>, c: Seq<char>)
    requires
        !chars_lt(b, a),
        !chars_lt(c, b),
    ensures
        !chars_lt(c, a),
{
    lemma_chars_lt_total(a, b);
    lemma_chars_lt_total(b, c);
    lemma_chars_lt_total(a, c);
    if chars_lt(a, b) && chars_lt(b, c) {
        lemma_chars_lt_trans(a, b, c);
    }
}

/// One insertion step keeps the entries sorted and adds exactly `x`.
proof fn lemma_insert_by_name(s: Seq<(Seq<char>, Seq<char>)>, x: (Seq<char>, Seq<char>))
    requires
        sorted_by_name(s),
    ensures
        sorted_by_name(insert_by_name(s, x)),
        insert_by_name(s, x).to_multiset() == s.to_multiset().insert(x),
    decreases s.len(),
{
    broadcast use vstd::seq_lib::group_to_multiset_ensures;
    broadcast use vstd::multiset::group_multiset_axioms;
    if s.len() == 0 {
        assert(seq![x] =~= Seq::<(Seq<char>, Seq<char>)>::empty().push(x));
        assert(s =~= Seq::<(Seq<char>, Seq<char>)>::empty());
    } else {
        let last = s.last();
        let init = s.drop_last();
        assert(s =~= init.push(last));
        if chars_lt(x.0, last.0) {
            assert(sorted_by_name(init)) by {
                assert forall|i: int, j: int| 0 <= i < j < init.len() implies !chars_lt(
                    #[trigger] init[j].0,
                    #[trigger] init[i].0,
                ) by {
                    assert(init[i] == s[i] && init[j] == s[j]);
                }
            }
            lemma_insert_by_name(init, x);
            let r1 = insert_by_name(init, x);
            let r = r1.push(last);
            assert forall|i: int, j: int| 0 <= i < j < r.len() implies !chars_lt(#[trigger] r[j].0, #[trigger] r[i].0) by {
                if j == r.len() - 1 {
                    let e = r1[i];
                    assert(r[i] == e);
                    assert(r1.to_multiset().count(e) > 0);
                    if e == x {
                        lemma_chars_lt_total(x.0, last.0);
                    } else {
                        assert(init.to_multiset().count(e) > 0);
                        assert(init.contains(e));
                        let k = choose|k: int| 0 <= k < init.len() && init[k] == e;
                        assert(s[k] == e);
                        assert(s[s.len() - 1] == last);
                    }
                } else {
                    assert(r[i] == r1[i] && r[j] == r1[j]);
                }
            }
            assert(r.to_multiset() =~= s.to_multiset().insert(x));
        } else {
            let r = s.push(x);
            assert forall|i: int, j: int| 0 <= i < j < r.len() implies !chars_lt(#[trigger] r[j].0, #[trigger] r[i].0) by {
                if j == r.len() - 1 {
                    assert(r[i] == s[i]);
                    if i < s.len() - 1 {
                        assert(!chars_lt(s[s.len() - 1].0, s[i].0));
                        lemma_chars_le_trans(s[i].0, last.0, x.0);
                    }
                } else {
                    assert(r[i] == s[i] && r[j] == s[j]);
                }
            }
        }
    }
}

/// Sorting by name yields the same entries, each name sorting no earlier
/// than the one before it.
pub proof fn law_sort_by_name_sorts(s: Seq<(Seq<char>, Seq<char>)>)
    ensures
        sorted_by_name(sort_by_name(s)),
        sort_by_name(s).to_multiset() == s.to_multiset(),
    decreases s.len(),
{
    broadcast use vstd::seq_lib::group_to_multiset_ensures;
    if s.len() == 0 {
        assert(s =~= Seq::<(Seq<char>, Seq<char>)>::empty());
    } else {
        law_sort_by_name_sorts(s.drop_last());
        lemma_insert_by_name(sort_by_name(s.drop_last()), s.last());
        assert(s =~= s.drop_last().push(s.last()));
    }
}

/// The views of a sequence of string pairs.
pub open spec fn pairs_of(v: Seq<(String, String)>) -> Seq<(Seq<char>, Seq<char>)> {
    v.map_values(|p: (String, String)| (p.0@, p.1@))
}

/// Insert `x` into the name-sorted `v` after every entry whose name does not
/// sort after its name.
fn insert_sorted(v: &mut Vec<(String, String)>, x: (String, String))
    ensures
        pairs_of(final(v)@) == insert_by_name(pairs_of(old(v)@), (x.0@, x.1@)),
{
    let ghost s = pairs_of(v@);
    let ghost xv = (x.0@, x.1@);
    let mut j = v.len();
    assert(s.take(j as int) =~= s);
    assert(insert_by_name(s, xv) + s.skip(j as int) =~= insert_by_name(s, xv));
    while j > 0 && str_lt(x.0.as_str(), v[j - 1].0.as_str())
        invariant
            j <= v@.len(),
            s == pairs_of(v@),
            insert_by_name(s, xv) == insert_by_name(s.take(j as int), xv) + s.skip(j as int),
            xv == (x.0@, x.1@),
        decreases j,
    {
        proof {
            let t = s.take(j as int);
            assert(t.last() == s[j - 1]);
            assert(t.drop_last() =~= s.take(j - 1));
            assert(insert_by_name(t, xv) == insert_by_name(s.take(j - 1), xv).push(s[j - 1]));
            assert(insert_by_name(s.take(j - 1), xv).push(s[j - 1]) + s.skip(j as int) =~= insert_by_name(
                s.take(j - 1),
                xv,
            ) + s.skip(j - 1));
        }
        j -= 1;
    }
    proof {
        let t = s.take(j as int);
        if j > 0 {
            assert(t.last() == s[j - 1]);
        }
        assert(insert_by_name(t, xv) == t.push(xv));
    }
    v.insert(j, x);
    assert(pairs_of(v@) =~= s.take(j as int).push(xv) + s.skip(j as int));
}

/// Each `name: Payload` field of a declared `NameSlots` struct gives a scoped
/// slot its payload type: the `(name, payload type)` pairs, sorted by name.
pub open spec fn slot_fields_of(slots: StructDecl) -> Seq<(Seq<char>, Seq<char>)> {
    match slots.fields {
        FieldsDecl::Named(fields, _) => sort_by_name(fields@.map_values(|f: FieldDecl| (f.name@, f.ty@))),
        _ => seq![],
    }
}

/// The `(name, payload type)` pairs of a declared `NameSlots` struct's fields,
/// sorted by name.
pub fn slot_fields(slots: &StructDecl) -> (r: Vec<(String, String)>)
    ensures
        pairs_of(r@) == slot_fields_of(*slots),
{
    let mut out: Vec<(String, String)> = Vec::new();
    let fields = match &slots.fields {
        FieldsDecl::Named(fields, _) => fields,
        _ => {
            assert(pairs_of(out@) =~= Seq::<(Seq<char>, Seq<char>)>::empty());
            return out;
        },
    };
    let ghost fs = fields@.map_values(|f: FieldDecl| (f.name@, f.ty@));
    assert(pairs_of(out@) =~= sort_by_name(fs.take(0)));
    let mut k: usize = 0;
    while k < fields.len()
        invariant
            k <= fields@.len(),
            fs == fields@.map_values(|f: FieldDecl| (f.name@, f.ty@)),
            pairs_of(out@) == sort_by_name(fs.take(k as int)),
        decreases fields@.len() - k,
    {
        let f = &fields[k];
        proof {
            assert(fs.take(k + 1).drop_last() =~= fs.take(k as int));
            assert(fs.take(k + 1).last() == (f.name@, f.ty@));
        }
        insert_sorted(&mut out, (f.name.clone(), f.ty.clone()));
        k += 1;
    }
    assert(fs.take(fields@.len() as int) =~= fs);
    out
}

// --- the generated `NameSlots` struct ------------------------------------------

/// A slot field: `pub name: Option<SlotFn<B, Payload>>`.
pub open spec fn slot_field_text(f: Seq<char>, p: Seq<char>) -> Seq<char> {
    "pub "@ + f + ": ::core::option::Option< ::vue_rs_dom::SlotFn<B, "@ + p + " >>"@
}

/// A slot field's default: `name: None`.
pub open spec fn slot_default_text(f: Seq<char>) -> Seq<char> {
    f + ": ::core::option::Option::None"@
}

/// A slot's `with_<name>` builder method.
pub open spec fn slot_setter_text(f: Seq<char>, p: Seq<char>) -> Seq<char> {
    "pub fn with_"@ + f + "(mut self, builder: impl Fn(B, "@ + p + " ) -> B::Node + 'static) -> Self { self."@ + f
        + " = ::core::option::Option::Some(::vue_rs_dom::SlotFn::new(builder)); self } "@
}

/// The pieces of each slot definition from `k` on: fields and defaults joined
/// with `, `, setters one after another.
pub open spec fn slot_pieces(defs: Seq<(Seq<char>, Seq<char>)>, k: int, fields: Seq<char>, defaults: Seq<char>, setters: Seq<char>) -> (
    Seq<char>,
    Seq<char>,
    Seq<char>,
)
    decreases defs.len() - k,
{
    if k < 0 || k >= defs.len() {
        (fields, defaults, setters)
    } else {
        let sep = if k == 0 { Seq::<char>::empty() } else { ", "@ };
        slot_pieces(
            defs,
            k + 1,
            fields + sep + slot_field_text(defs[k].0, defs[k].1),
            defaults + sep + slot_default_text(defs[k].0),
            setters + slot_setter_text(defs[k].0, defs[k].1),
        )
    }
}

/// A component's `NameSlots` struct for its used slots (`(field, payload)`
/// pairs), and the render function's parameter that receives it.
pub open spec fn slots_struct_code(ty: Seq<char>, defs: Seq<(Seq<char>, Seq<char>)>) -> (Seq<char>, Seq<char>) {
    if defs.len() == 0 {
        (
            "#[allow(non_camel_case_types)] pub struct "@ + ty + "; impl ::core::default::Default for "@ + ty
                + " { fn default() -> Self { "@ + ty + " } } impl "@ + ty
                + " { pub fn for_backend<B: ::vue_rs_dom::Backend>(_backend: &B) -> Self { "@ + ty + " } }"@,
            ", __slots: "@ + ty,
        )
    } else {
        let (fields, defaults, setters) = slot_pieces(defs, 0, Seq::<char>::empty(), Seq::<char>::empty(), Seq::<char>::empty());
        (
            "#[allow(non_camel_case_types)] pub struct "@ + ty + "<B: ::vue_rs_dom::Backend> { "@ + fields
                + " } impl<B: ::vue_rs_dom::Backend> ::core::default::Default for "@ + ty
                + "<B> { fn default() -> Self { Self { "@ + defaults + " } } } impl<B: ::vue_rs_dom::Backend> "@ + ty
                + "<B> { #[doc = r\" All slots unset; pins the backend type from a value so the\"] #[doc = r\" parent's slot closures can infer their parameter types.\"] pub fn for_backend(_backend: &B) -> Self { ::core::default::Default::default() } "@
                + setters + "}"@,
            ", __slots: "@ + ty + "<B>"@,
        )
    }
}

/// Generate a component's `NameSlots` struct from its used slots (`(field,
/// payload)` pairs) and the render function's parameter that receives it.
/// With no slots it is a unit struct (still always passed, so every component
/// call is uniform); otherwise it is generic over the backend `B`, with an
/// `Option<SlotFn<B, T>>` field and a `with_<name>` builder per slot.
pub fn gen_slots_struct(slots_ty: &str, slot_defs: &Vec<(String, String)>) -> (r: (String, String))
    ensures
        (r.0@, r.1@) == slots_struct_code(slots_ty@, pairs_of(slot_defs@)),
{
    let ghost defs = pairs_of(slot_defs@);
    if slot_defs.len() == 0 {
        let mut def = cat3("#[allow(non_camel_case_types)] pub struct ", slots_ty, "; impl ::core::default::Default for ");
        def.append(slots_ty);
        def.append(" { fn default() -> Self { ");
        def.append(slots_ty);
        def.append(" } } impl ");
        def.append(slots_ty);
        def.append(" { pub fn for_backend<B: ::vue_rs_dom::Backend>(_backend: &B) -> Self { ");
        def.append(slots_ty);
        def.append(" } }");
        return (def, crate::text::cat(", __slots: ", slots_ty));
    }
    let mut fields = String::new();
    let mut defaults = String::new();
    let mut setters = String::new();
    let mut k: usize = 0;
    while k < slot_defs.len()
        invariant
            k <= slot_defs@.len(),
            defs == pairs_of(slot_defs@),
            slot_pieces(defs, 0, Seq::<char>::empty(), Seq::<char>::empty(), Seq::<char>::empty())
                == slot_pieces(defs, k as int, fields@, defaults@, setters@),
        decreases slot_defs@.len() - k,
    {
        let (f, p) = &slot_defs[k];
        assert(defs[k as int] == (f@, p@));
        let ghost f0 = fields@;
        let ghost d0 = defaults@;
        let ghost s0 = setters@;
        let ghost sep = if k == 0 { Seq::<char>::empty() } else { ", "@ };
        if k > 0 {
            fields.append(", ");
            defaults.append(", ");
        } else {
            proof { reveal_strlit(""); }
        }
        assert((if k == 0 { Seq::<char>::empty() } else { ", "@ }) == (if k > 0 { ", "@ } else { Seq::<char>::empty() }));
        fields.append("pub ");
        fields.append(f.as_str());
        fields.append(": ::core::option::Option< ::vue_rs_dom::SlotFn<B, ");
        fields.append(p.as_str());
        fields.append(" >>");
        defaults.append(f.as_str());
        defaults.append(": ::core::option::Option::None");
        setters.append("pub fn with_");
        setters.append(f.as_str());
        setters.append("(mut self, builder: impl Fn(B, ");
        setters.append(p.as_str());
        setters.append(" ) -> B::Node + 'static) -> Self { self.");
        setters.append(f.as_str());
        setters.append(" = ::core::option::Option::Some(::vue_rs_dom::SlotFn::new(builder)); self } ");
        assert(fields@ =~= f0 + sep + slot_field_text(f@, p@));
        assert(defaults@ =~= d0 + sep + slot_default_text(f@));
        assert(setters@ =~= s0 + slot_setter_text(f@, p@));
        k += 1;
    }
    let mut def = cat3("#[allow(non_camel_case_types)] pub struct ", slots_ty, "<B: ::vue_rs_dom::Backend> { ");
    def.append(fields.as_str());
    def.append(" } impl<B: ::vue_rs_dom::Backend> ::core::default::Default for ");
    def.append(slots_ty);
    def.append("<B> { fn default() -> Self { Self { ");
    def.append(defaults.as_str());
    def.append(" } } } impl<B: ::vue_rs_dom::Backend> ");
    def.append(slots_ty);
    def.append(
        "<B> { #[doc = r\" All slots unset; pins the backend type from a value so the\"] #[doc = r\" parent's slot closures can infer their parameter types.\"] pub fn for_backend(_backend: &B) -> Self { ::core::default::Default::default() } ",
    );
    def.append(setters.as_str());
    def.append("}");
    (def, cat3(", __slots: ", slots_ty, "<B>"))
}

} // verus!

verus! {

// --- decimal spelling ------------------------------------------------------------

/// The decimal digit for `d < 10`.
pub open spec fn digit(d: nat) -> char {
    (('0' as int) + d) as char
}

/// The decimal spelling of `n` (as `usize`'s `Display` writes it).
pub open spec fn dec(n: nat) -> Seq<char>
    decreases n,
{
    if n < 10 {
        seq![digit(n)]
    } else {
        dec(n / 10) + seq![digit(n % 10)]
    }
}

/// The decimal spelling of `n`.
pub fn decimal(n: usize) -> (r: String)
    ensures
        r@ == dec(n as nat),
    decreases n,
{
    let d = n % 10;
    let c = char_of_digit(d);
    let v = [c];
    let last = crate::text::string_of(&v);
    assert(v@ =~= seq![digit(d as nat)]);
    if n < 10 {
        last
    } else {
        let mut s = decimal(n / 10);
        s.append(last.as_str());
        s
    }
}

/// The character of a decimal digit.
fn char_of_digit(d: usize) -> (c: char)
    requires
        d < 10,
    ensures
        c == digit(d as nat),
{
    if d == 0 { '0' } else if d == 1 { '1' } else if d == 2 { '2' } else if d == 3 { '3' } else if d == 4 {
        '4'
    } else if d == 5 { '5' } else if d == 6 { '6' } else if d == 7 { '7' } else if d == 8 { '8' } else { '9' }
}

// --- the props builder -----------------------------------------------------------

/// `acc` with `x` added to a `, `-separated list.
pub open spec fn join_add(acc: Seq<char>, x: Seq<char>) -> Seq<char> {
    if acc.len() == 0 { x } else { acc + ", "@ + x }
}

/// The marker type parameter of the `i`-th required prop.
pub open spec fn marker(i: nat) -> Seq<char> {
    "__M"@ + dec(i)
}

/// `__M0, .., __M{n-1}`.
pub open spec fn all_markers(n: nat) -> Seq<char>
    decreases n,
{
    if n == 0 { Seq::<char>::empty() } else { join_add(all_markers((n - 1) as nat), marker((n - 1) as nat)) }
}

/// `x, .., x` (`n` times).
pub open spec fn repeat_join(n: nat, x: Seq<char>) -> Seq<char>
    decreases n,
{
    if n == 0 { Seq::<char>::empty() } else { join_add(repeat_join((n - 1) as nat, x), x) }
}

/// The markers `__M0, .., __M{n-1}` with the one at `pos` replaced by `x`.
pub open spec fn swap_join(n: nat, pos: nat, x: Seq<char>) -> Seq<char>
    decreases n,
{
    if n == 0 {
        Seq::<char>::empty()
    } else {
        join_add(swap_join((n - 1) as nat, pos, x), if n - 1 == pos { x } else { marker((n - 1) as nat) })
    }
}

/// The markers `__M0, .., __M{n-1}` without the one at `pos`.
pub open spec fn others_join(n: nat, pos: nat) -> Seq<char>
    decreases n,
{
    if n == 0 {
        Seq::<char>::empty()
    } else if n - 1 == pos {
        others_join((n - 1) as nat, pos)
    } else {
        join_add(others_join((n - 1) as nat, pos), marker((n - 1) as nat))
    }
}

/// `<items>`, or nothing for no items.
pub open spec fn angled(n: nat, items: Seq<char>) -> Seq<char> {
    if n == 0 { Seq::<char>::empty() } else { "< "@ + items + " >"@ }
}

/// The unset typestate marker.
pub open spec fn unset_ty() -> Seq<char> {
    "::vue_rs_dom::builder::Unset"@
}

/// The set typestate marker.
pub open spec fn set_ty() -> Seq<char> {
    "::vue_rs_dom::builder::Set"@
}

/// A required prop: one without `#[prop(default..)]`.
pub open spec fn required(f: FieldDecl) -> bool {
    field_default(f) matches Ok(None)
}

/// The number of required props among `fs[0..k]`.
pub open spec fn required_upto(fs: Seq<FieldDecl>, k: int) -> nat
    decreases k,
{
    if k <= 0 || k > fs.len() {
        0
    } else if required(fs[k - 1]) {
        required_upto(fs, k - 1) + 1
    } else {
        required_upto(fs, k - 1)
    }
}

/// The message of the first field from `k` on whose `#[prop(..)]` does not parse.
pub open spec fn first_default_error(fs: Seq<FieldDecl>, k: int) -> Option<Seq<char>>
    decreases fs.len() - k,
{
    if k < 0 || k >= fs.len() {
        None
    } else {
        match field_default(fs[k]) {
            Err(e) => Some(e),
            Ok(_) => first_default_error(fs, k + 1),
        }
    }
}

/// `name: self.name, ` for each field from `j` on not named `name`.
pub open spec fn rest_inits(fs: Seq<FieldDecl>, j: int, name: Seq<char>) -> Seq<char>
    decreases fs.len() - j,
{
    if j < 0 || j >= fs.len() {
        Seq::<char>::empty()
    } else if fs[j].name@ == name {
        rest_inits(fs, j + 1, name)
    } else {
        fs[j].name@ + ": self."@ + fs[j].name@ + ", "@ + rest_inits(fs, j + 1, name)
    }
}

/// The setter impl for field `f`: an optional prop keeps the markers; the
/// required prop at marker position `pos` flips its marker from unset to set.
pub open spec fn setter_text(fs: Seq<FieldDecl>, f: FieldDecl, pos: nat, k: nat, bty: Seq<char>) -> Seq<char> {
    if required(f) {
        "impl< "@ + others_join(k, pos) + " > "@ + bty + "< "@ + swap_join(k, pos, unset_ty())
            + " > { #[allow(dead_code)] pub fn "@ + f.name@ + "(self, value: "@ + f.ty@ + " ) -> "@ + bty + "< "@
            + swap_join(k, pos, set_ty()) + " > { "@ + bty + " { "@ + f.name@ + ": ::core::option::Option::Some(value), "@
            + rest_inits(fs, 0, f.name@) + "__markers: ::core::marker::PhantomData } } } "@
    } else {
        "impl "@ + angled(k, all_markers(k)) + " "@ + bty + " "@ + angled(k, all_markers(k))
            + " { #[allow(dead_code)] pub fn "@ + f.name@ + "(mut self, value: "@ + f.ty@ + " ) -> Self { self."@
            + f.name@ + " = ::core::option::Option::Some(value); self } } "@
    }
}

/// How `build()` fills field `f`.
pub open spec fn build_init_text(f: FieldDecl) -> Seq<char> {
    match field_default(f) {
        Ok(Some(PropDefaultV::Auto)) => f.name@ + ": ::core::option::Option::unwrap_or_else(self."@ + f.name@
            + ", || ::core::default::Default::default())"@,
        Ok(Some(PropDefaultV::Expr(e))) => f.name@ + ": ::core::option::Option::unwrap_or_else(self."@ + f.name@
            + ", || "@ + e + " )"@,
        _ => f.name@ + ": ::core::option::Option::unwrap(self."@ + f.name@ + ")"@,
    }
}

/// The per-field pieces from field `j` on (`pos` required fields before it):
/// builder fields, `None` initializers and `build()` initializers (each a
/// `, `-separated list), and the setter impls.
pub open spec fn field_pieces(
    fs: Seq<FieldDecl>,
    k: nat,
    bty: Seq<char>,
    j: int,
    pos: nat,
    bfields: Seq<char>,
    nones: Seq<char>,
    setters: Seq<char>,
    builds: Seq<char>,
) -> (Seq<char>, Seq<char>, Seq<char>, Seq<char>)
    decreases fs.len() - j,
{
    if j < 0 || j >= fs.len() {
        (bfields, nones, setters, builds)
    } else {
        let f = fs[j];
        field_pieces(
            fs,
            k,
            bty,
            j + 1,
            if required(f) { pos + 1 } else { pos },
            join_add(bfields, f.name@ + ": ::core::option::Option< "@ + f.ty@ + " >"@),
            join_add(nones, f.name@ + ": ::core::option::Option::None"@),
            setters + setter_text(fs, f, pos, k, bty),
            join_add(builds, build_init_text(f)),
        )
    }
}

/// A field of the props struct with its `#[prop(..)]` attributes removed.
pub open spec fn cleaned_field(f: FieldDecl) -> Seq<char> {
    kept_attrs(f.attrs@, 0) + f.vis@ + " "@ + f.name@ + ": "@ + f.ty@
}

/// The attribute's path is the single identifier `name`.
pub open spec fn attr_named(a: AttrDecl, name: Seq<char>) -> bool {
    a.ident matches Some(p) && p@ == name
}

/// The attributes from `k` on other than `#[prop(..)]`, each followed by a space.
pub open spec fn kept_attrs(attrs: Seq<AttrDecl>, k: int) -> Seq<char>
    decreases attrs.len() - k,
{
    if k < 0 || k >= attrs.len() {
        Seq::<char>::empty()
    } else if attr_named(attrs[k], "prop"@) {
        kept_attrs(attrs, k + 1)
    } else {
        attrs[k].text@ + " "@ + kept_attrs(attrs, k + 1)
    }
}

/// The cleaned fields from `j` on, each followed by a comma except a last one
/// that had none.
pub open spec fn cleaned_fields(fs: Seq<FieldDecl>, trailing: bool, j: int) -> Seq<char>
    decreases fs.len() - j,
{
    if j < 0 || j >= fs.len() {
        Seq::<char>::empty()
    } else {
        cleaned_field(fs[j]) + (if j + 1 < fs.len() || trailing { ", "@ } else { Seq::<char>::empty() })
            + cleaned_fields(fs, trailing, j + 1)
    }
}

/// The outer attributes, each followed by a space.
pub open spec fn attrs_text(attrs: Seq<String>, k: int) -> Seq<char>
    decreases attrs.len() - k,
{
    if k < 0 || k >= attrs.len() {
        Seq::<char>::empty()
    } else {
        attrs[k]@ + " "@ + attrs_text(attrs, k + 1)
    }
}

/// The props struct as declared, with `#[prop(..)]` attributes removed so it
/// is valid Rust.
pub open spec fn cleaned_struct(item: StructDecl, fs: Seq<FieldDecl>, trailing: bool) -> Seq<char> {
    attrs_text(item.attrs@, 0) + item.vis@ + " struct "@ + item.name@ + " "@ + item.generics@ + " "@
        + item.where_clause@ + " { "@ + cleaned_fields(fs, trailing, 0) + " }"@
}

/// The builder's marker field, when it has markers.
pub open spec fn markers_field(k: nat) -> Seq<char> {
    if k == 0 {
        Seq::<char>::empty()
    } else {
        " , __markers: ::core::marker::PhantomData<( "@ + all_markers(k) + " )>"@
    }
}

/// The builder's marker initializer, when it has markers.
pub open spec fn markers_init(k: nat) -> Seq<char> {
    if k == 0 { Seq::<char>::empty() } else { " , __markers: ::core::marker::PhantomData"@ }
}

/// The builder struct: every field as an `Option`, plus the markers.
pub open spec fn builder_struct_text(bty: Seq<char>, k: nat, bfields: Seq<char>) -> Seq<char> {
    " #[allow(non_camel_case_types)] pub struct "@ + bty + " "@ + angled(k, all_markers(k)) + " { "@ + bfields
        + markers_field(k) + " } "@
}

/// `Props::builder()`, starting with every field unset.
pub open spec fn builder_fn_text(ty: Seq<char>, bty: Seq<char>, k: nat, nones: Seq<char>) -> Seq<char> {
    "impl "@ + ty + " { #[allow(dead_code)] pub fn builder() -> "@ + bty + " "@ + angled(k, repeat_join(k, unset_ty()))
        + " { "@ + bty + " { "@ + nones + markers_init(k) + " } } } "@
}

/// `build()`, reachable only when every required marker is set.
pub open spec fn build_fn_text(ty: Seq<char>, bty: Seq<char>, k: nat, builds: Seq<char>) -> Seq<char> {
    "impl "@ + bty + " "@ + angled(k, repeat_join(k, set_ty())) + " { #[allow(dead_code)] pub fn build(self) -> "@ + ty
        + " { "@ + ty + " { "@ + builds + " } } }"@
}

/// The props struct, its typestate builder, and the builder's impls.
pub open spec fn builder_text(item: StructDecl, fs: Seq<FieldDecl>, trailing: bool) -> Seq<char> {
    let ty = item.name@;
    let bty = ty + "Builder"@;
    let k = required_upto(fs, fs.len() as int);
    let (bfields, nones, setters, builds) = field_pieces(
        fs,
        k,
        bty,
        0,
        0,
        Seq::<char>::empty(),
        Seq::<char>::empty(),
        Seq::<char>::empty(),
        Seq::<char>::empty(),
    );
    cleaned_struct(item, fs, trailing) + builder_struct_text(bty, k, bfields) + builder_fn_text(ty, bty, k, nones)
        + setters + build_fn_text(ty, bty, k, builds)
}

/// A component's props type: the `NameProps` struct (with `#[prop]`
/// attributes stripped) plus a typestate builder, or why it cannot be built.
pub open spec fn props_builder_code(item: StructDecl) -> Result<Seq<char>, Seq<char>> {
    if item.has_params {
        Err("generic props struct `"@ + item.name@ + "` is not supported"@)
    } else {
        match item.fields {
            FieldsDecl::Named(fields, trailing) => match first_default_error(fields@, 0) {
                Some(e) => Err(e),
                None => Ok(builder_text(item, fields@, trailing)),
            },
            _ => Err("props struct `"@ + item.name@ + "` must have named fields"@),
        }
    }
}

} // verus!

verus! {

/// Add `x` to the `, `-separated list `acc`.
fn join_add_exec(acc: &mut String, x: &str)
    ensures
        final(acc)@ == join_add(old(acc)@, x@),
{
    if acc.as_str().unicode_len() > 0 {
        acc.append(", ");
    }
    acc.append(x);
}

/// The marker type parameter of the `i`-th required prop.
fn marker_exec(i: usize) -> (r: String)
    ensures
        r@ == marker(i as nat),
{
    crate::text::cat("__M", decimal(i).as_str())
}

/// `__M0, .., __M{n-1}`.
fn all_markers_exec(n: usize) -> (r: String)
    ensures
        r@ == all_markers(n as nat),
{
    let mut acc = String::new();
    let mut i: usize = 0;
    while i < n
        invariant
            i <= n,
            acc@ == all_markers(i as nat),
        decreases n - i,
    {
        join_add_exec(&mut acc, marker_exec(i).as_str());
        i += 1;
    }
    acc
}

/// `x, .., x` (`n` times).
fn repeat_join_exec(n: usize, x: &str) -> (r: String)
    ensures
        r@ == repeat_join(n as nat, x@),
{
    let mut acc = String::new();
    let mut i: usize = 0;
    while i < n
        invariant
            i <= n,
            acc@ == repeat_join(i as nat, x@),
        decreases n - i,
    {
        join_add_exec(&mut acc, x);
        i += 1;
    }
    acc
}

/// The markers with the one at `pos` replaced by `x`.
fn swap_join_exec(n: usize, pos: usize, x: &str) -> (r: String)
    ensures
        r@ == swap_join(n as nat, pos as nat, x@),
{
    let mut acc = String::new();
    let mut i: usize = 0;
    while i < n
        invariant
            i <= n,
            acc@ == swap_join(i as nat, pos as nat, x@),
        decreases n - i,
    {
        if i == pos {
            join_add_exec(&mut acc, x);
        } else {
            join_add_exec(&mut acc, marker_exec(i).as_str());
        }
        i += 1;
    }
    acc
}

/// The markers without the one at `pos`.
fn others_join_exec(n: usize, pos: usize) -> (r: String)
    ensures
        r@ == others_join(n as nat, pos as nat),
{
    let mut acc = String::new();
    let mut i: usize = 0;
    while i < n
        invariant
            i <= n,
            acc@ == others_join(i as nat, pos as nat),
        decreases n - i,
    {
        if i != pos {
            join_add_exec(&mut acc, marker_exec(i).as_str());
        }
        i += 1;
    }
    acc
}

/// `<items>`, or nothing for no items.
fn angled_exec(n: usize, items: &str) -> (r: String)
    ensures
        r@ == angled(n as nat, items@),
{
    if n == 0 {
        String::new()
    } else {
        cat3("< ", items, " >")
    }
}

/// `name: self.name, ` for each field not named `name`.
fn rest_inits_exec(fs: &Vec<FieldDecl>, name: &str) -> (r: String)
    ensures
        r@ == rest_inits(fs@, 0, name@),
{
    let mut acc = String::new();
    let mut j: usize = 0;
    while j < fs.len()
        invariant
            j <= fs@.len(),
            rest_inits(fs@, 0, name@) == acc@ + rest_inits(fs@, j as int, name@),
        decreases fs@.len() - j,
    {
        let ghost a0 = acc@;
        let n = fs[j].name.as_str();
        if !str_eq(n, name) {
            acc.append(n);
            acc.append(": self.");
            acc.append(n);
            acc.append(", ");
            assert(acc@ + rest_inits(fs@, j + 1, name@) =~= a0 + (n@ + ": self."@ + n@ + ", "@ + rest_inits(
                fs@,
                j + 1,
                name@,
            )));
        }
        j += 1;
    }
    assert(acc@ + Seq::<char>::empty() =~= acc@);
    acc
}

/// Split the tokens `ts` at `at`: `ts` keeps the first `at`, the rest come back.
fn split_toks(ts: &mut Vec<Tok>, at: usize) -> (r: Vec<Tok>)
    requires
        at <= old(ts)@.len(),
    ensures
        toks_view(r@) == toks_view(old(ts)@).skip(at as int),
        toks_view(final(ts)@) == toks_view(old(ts)@).take(at as int),
{
    let ghost before = ts@;
    let r = ts.split_off(at);
    proof {
        lemma_toks_view_index(before);
        lemma_toks_view_index(r@);
        lemma_toks_view_index(ts@);
        assert forall|i: int| 0 <= i < r@.len() implies toks_view(r@)[i] == toks_view(before).skip(at as int)[i] by {
            assert(r@[i] == before[i + at]);
        }
        assert(toks_view(r@) =~= toks_view(before).skip(at as int));
        assert forall|i: int| 0 <= i < ts@.len() implies toks_view(ts@)[i] == toks_view(before).take(at as int)[i] by {
            assert(ts@[i] == before[i]);
        }
        assert(toks_view(ts@) =~= toks_view(before).take(at as int));
    }
    r
}

/// Read one `#[prop ..]` attribute.
fn prop_arg_exec(a: &AttrArgs) -> (r: Result<PropDefault, String>)
    ensures
        match r {
            Ok(d) => prop_arg_default(*a) == Ok::<PropDefaultV, Seq<char>>(pd_one(d)),
            Err(e) => prop_arg_default(*a) == Err::<PropDefaultV, Seq<char>>(e@),
        },
{
    let text = match a {
        AttrArgs::NotList(m) => return Err(m.clone()),
        AttrArgs::List(t) => t,
    };
    let mut ts = match lex_tokens(text.as_str()) {
        Err(e) => return Err(e),
        Ok(v) => v,
    };
    let ghost tv = toks_view(ts@);
    proof { lemma_toks_view_index(ts@); }
    let mut rest = if ts.len() == 0 { Vec::new() } else { split_toks(&mut ts, 1) };
    let mut first = String::new();
    render_stream(&ts, &mut first);
    proof {
        if tv.len() == 0 {
            assert(toks_view(ts@) =~= Seq::<TokV>::empty());
            assert(toks_view(rest@) =~= Seq::<TokV>::empty());
            assert(render_from(Seq::<TokV>::empty(), 0) =~= Seq::<char>::empty());
        }
    }
    assert(first@ == if tv.len() == 0 { Seq::<char>::empty() } else { render_from(tv.take(1), 0) });
    let id = match parse_ident(first.as_str()) {
        Err(e) => return Err(e),
        Ok(id) => id,
    };
    if !str_eq(id.as_str(), "default") {
        return Err(String::from_str("expected `default`"));
    }
    proof { lemma_toks_view_index(rest@); }
    if rest.len() == 0 {
        return Ok(PropDefault::Auto);
    }
    assert(tv[1] == toks_view(rest@)[0]);
    let eq = match &rest[0] {
        Tok::Punct(c, _) => *c == '=',
        _ => false,
    };
    if !eq {
        let mut spelled = String::new();
        render_stream(&rest, &mut spelled);
        assert(spelled@ =~= render_from(tv.skip(1), 0));
        return match parse_nothing(spelled.as_str()) {
            Some(e) => Err(e),
            None => Ok(PropDefault::Auto),
        };
    }
    let tail = split_toks(&mut rest, 1);
    assert(toks_view(tail@) =~= tv.skip(2));
    let mut spelled = String::new();
    render_stream(&tail, &mut spelled);
    match parse_expr_tokens(spelled.as_str()) {
        Ok(t) => Ok(PropDefault::Expr(t)),
        Err(e) => Err(e),
    }
}

/// Field `f`'s default as its `#[prop ..]` attributes give it.
pub fn prop_default(f: &FieldDecl) -> (r: Result<Option<PropDefault>, String>)
    ensures
        pd_view(r) == field_default(*f),
{
    let mut found: Option<PropDefault> = None;
    let mut k: usize = 0;
    while k < f.attrs.len()
        invariant
            k <= f.attrs@.len(),
            field_default(*f) == props_default(f.name@, f.attrs@, k as int, pd_opt(found)),
        decreases f.attrs@.len() - k,
    {
        let a = &f.attrs[k];
        let is_prop = match &a.ident {
            Some(p) => str_eq(p.as_str(), "prop"),
            None => false,
        };
        if is_prop {
            match prop_arg_exec(&a.args) {
                Err(e) => {
                    let mut m = cat3("invalid `#[prop(...)]` on `", f.name.as_str(), "`: ");
                    m.append(e.as_str());
                    return Err(m);
                },
                Ok(d) => {
                    found = Some(d);
                },
            }
        }
        k += 1;
    }
    match found {
        Some(d) => Ok(Some(d)),
        None => Ok(None),
    }
}

/// The view of an optional prop default.
pub open spec fn pd_opt(o: Option<PropDefault>) -> Option<PropDefaultV> {
    match o {
        None => None,
        Some(x) => Some(pd_one(x)),
    }
}

/// Whether field `f` is a required prop.
fn is_required(f: &FieldDecl) -> (r: bool)
    ensures
        r == required(*f),
{
    match prop_default(f) {
        Ok(None) => true,
        _ => false,
    }
}

/// The setter impl for field `f` (`pos` required fields before it, `k` in all).
fn setter_exec(fs: &Vec<FieldDecl>, f: &FieldDecl, pos: usize, k: usize, bty: &str) -> (r: String)
    ensures
        r@ == setter_text(fs@, *f, pos as nat, k as nat, bty@),
{
    if is_required(f) {
        let mut s = cat3("impl< ", others_join_exec(k, pos).as_str(), " > ");
        s.append(bty);
        s.append("< ");
        s.append(swap_join_exec(k, pos, "::vue_rs_dom::builder::Unset").as_str());
        s.append(" > { #[allow(dead_code)] pub fn ");
        s.append(f.name.as_str());
        s.append("(self, value: ");
        s.append(f.ty.as_str());
        s.append(" ) -> ");
        s.append(bty);
        s.append("< ");
        s.append(swap_join_exec(k, pos, "::vue_rs_dom::builder::Set").as_str());
        s.append(" > { ");
        s.append(bty);
        s.append(" { ");
        s.append(f.name.as_str());
        s.append(": ::core::option::Option::Some(value), ");
        s.append(rest_inits_exec(fs, f.name.as_str()).as_str());
        s.append("__markers: ::core::marker::PhantomData } } } ");
        s
    } else {
        let g = angled_exec(k, all_markers_exec(k).as_str());
        let mut s = cat3("impl ", g.as_str(), " ");
        s.append(bty);
        s.append(" ");
        s.append(g.as_str());
        s.append(" { #[allow(dead_code)] pub fn ");
        s.append(f.name.as_str());
        s.append("(mut self, value: ");
        s.append(f.ty.as_str());
        s.append(" ) -> Self { self.");
        s.append(f.name.as_str());
        s.append(" = ::core::option::Option::Some(value); self } } ");
        s
    }
}

/// How `build()` fills field `f`.
fn build_init_exec(f: &FieldDecl) -> (r: String)
    ensures
        r@ == build_init_text(*f),
{
    let n = f.name.as_str();
    match &prop_default(f) {
        Ok(Some(PropDefault::Auto)) => {
            let mut s = cat3(n, ": ::core::option::Option::unwrap_or_else(self.", n);
            s.append(", || ::core::default::Default::default())");
            s
        },
        Ok(Some(PropDefault::Expr(e))) => {
            let mut s = cat3(n, ": ::core::option::Option::unwrap_or_else(self.", n);
            s.append(", || ");
            s.append(e.as_str());
            s.append(" )");
            s
        },
        _ => {
            let mut s = cat3(n, ": ::core::option::Option::unwrap(self.", n);
            s.append(")");
            s
        },
    }
}

/// The outer attributes other than `#[prop(..)]`, each followed by a space.
fn kept_attrs_exec(attrs: &Vec<AttrDecl>) -> (r: String)
    ensures
        r@ == kept_attrs(attrs@, 0),
{
    let mut acc = String::new();
    let mut k: usize = 0;
    while k < attrs.len()
        invariant
            k <= attrs@.len(),
            kept_attrs(attrs@, 0) == acc@ + kept_attrs(attrs@, k as int),
        decreases attrs@.len() - k,
    {
        let ghost a0 = acc@;
        let a = &attrs[k];
        let is_prop = match &a.ident {
            Some(p) => str_eq(p.as_str(), "prop"),
            None => false,
        };
        if !is_prop {
            acc.append(a.text.as_str());
            acc.append(" ");
            assert(acc@ + kept_attrs(attrs@, k + 1) =~= a0 + (a.text@ + " "@ + kept_attrs(attrs@, k + 1)));
        }
        k += 1;
    }
    assert(acc@ + Seq::<char>::empty() =~= acc@);
    acc
}

/// The props struct as declared, with `#[prop(..)]` attributes removed.
fn cleaned_struct_exec(item: &StructDecl, fs: &Vec<FieldDecl>, trailing: bool) -> (r: String)
    ensures
        r@ == cleaned_struct(*item, fs@, trailing),
{
    let mut s = String::new();
    let mut k: usize = 0;
    while k < item.attrs.len()
        invariant
            k <= item.attrs@.len(),
            attrs_text(item.attrs@, 0) == s@ + attrs_text(item.attrs@, k as int),
        decreases item.attrs@.len() - k,
    {
        let ghost a0 = s@;
        s.append(item.attrs[k].as_str());
        s.append(" ");
        assert(s@ + attrs_text(item.attrs@, k + 1) =~= a0 + (item.attrs@[k as int]@ + " "@ + attrs_text(
            item.attrs@,
            k + 1,
        )));
        k += 1;
    }
    assert(s@ + Seq::<char>::empty() =~= s@);
    s.append(item.vis.as_str());
    s.append(" struct ");
    s.append(item.name.as_str());
    s.append(" ");
    s.append(item.generics.as_str());
    s.append(" ");
    s.append(item.where_clause.as_str());
    s.append(" { ");
    let ghost before_fields = s@;
    let mut j: usize = 0;
    while j < fs.len()
        invariant
            j <= fs@.len(),
            before_fields + cleaned_fields(fs@, trailing, 0) == s@ + cleaned_fields(fs@, trailing, j as int),
        decreases fs@.len() - j,
    {
        let ghost a0 = s@;
        let f = &fs[j];
        s.append(kept_attrs_exec(&f.attrs).as_str());
        s.append(f.vis.as_str());
        s.append(" ");
        s.append(f.name.as_str());
        s.append(": ");
        s.append(f.ty.as_str());
        let ghost sep = if j + 1 < fs@.len() || trailing { ", "@ } else { Seq::<char>::empty() };
        if j + 1 < fs.len() || trailing {
            s.append(", ");
        }
        assert(s@ == a0 + cleaned_field(*f) + sep);
        assert(s@ + cleaned_fields(fs@, trailing, j + 1) =~= a0 + (cleaned_field(fs@[j as int]) + sep + cleaned_fields(
            fs@,
            trailing,
            j + 1,
        )));
        j += 1;
    }
    assert(s@ + Seq::<char>::empty() =~= s@);
    s.append(" }");
    s
}

/// Generate a component's props type: the `NameProps` struct (with `#[prop]`
/// attributes stripped) plus a typestate builder the parent uses to pass
/// props by name. Each required prop carries a marker type parameter its
/// setter flips from `Unset` to `Set`; `build()` exists only when every marker
/// is `Set`, so omitting a required prop does not compile. A prop marked
/// `#[prop(default)]` or `#[prop(default = expr)]` is optional: `build()`
/// fills its default when the parent omits it.
pub fn gen_props_builder(item: &StructDecl) -> (r: Result<String, String>)
    ensures
        match r {
            Ok(t) => props_builder_code(*item) == Ok::<_, Seq<char>>(t@),
            Err(e) => props_builder_code(*item) == Err::<Seq<char>, _>(e@),
        },
{
    if item.has_params {
        return Err(cat3("generic props struct `", item.name.as_str(), "` is not supported"));
    }
    let (fs, trailing) = match &item.fields {
        FieldsDecl::Named(fs, trailing) => (fs, *trailing),
        _ => return Err(cat3("props struct `", item.name.as_str(), "` must have named fields")),
    };
    let mut k: usize = 0;
    let mut j: usize = 0;
    while j < fs.len()
        invariant
            j <= fs@.len(),
            k == required_upto(fs@, j as int),
            k <= j,
            first_default_error(fs@, 0) == first_default_error(fs@, j as int),
            !item.has_params,
            item.fields matches FieldsDecl::Named(f2, t2) && f2@ == fs@,
        decreases fs@.len() - j,
    {
        match prop_default(&fs[j]) {
            Err(e) => return Err(e),
            Ok(_) => {},
        }
        if is_required(&fs[j]) {
            k += 1;
        }
        j += 1;
    }
    let ty = item.name.as_str();
    let bty = crate::text::cat(ty, "Builder");
    let mut bfields = String::new();
    let mut nones = String::new();
    let mut setters = String::new();
    let mut builds = String::new();
    let mut pos: usize = 0;
    let mut j: usize = 0;
    while j < fs.len()
        invariant
            j <= fs@.len(),
            k == required_upto(fs@, fs@.len() as int),
            pos == required_upto(fs@, j as int),
            pos <= j,
            field_pieces(
                fs@,
                k as nat,
                bty@,
                0,
                0,
                Seq::<char>::empty(),
                Seq::<char>::empty(),
                Seq::<char>::empty(),
                Seq::<char>::empty(),
            ) == field_pieces(fs@, k as nat, bty@, j as int, pos as nat, bfields@, nones@, setters@, builds@),
        decreases fs@.len() - j,
    {
        let f = &fs[j];
        let mut bf = cat3(f.name.as_str(), ": ::core::option::Option< ", f.ty.as_str());
        bf.append(" >");
        join_add_exec(&mut bfields, bf.as_str());
        join_add_exec(&mut nones, crate::text::cat(f.name.as_str(), ": ::core::option::Option::None").as_str());
        setters.append(setter_exec(fs, f, pos, k, bty.as_str()).as_str());
        join_add_exec(&mut builds, build_init_exec(f).as_str());
        if is_required(f) {
            pos += 1;
        }
        j += 1;
    }
    let mut out = cleaned_struct_exec(item, fs, trailing);
    out.append(builder_struct_exec(bty.as_str(), k, bfields.as_str()).as_str());
    out.append(builder_fn_exec(ty, bty.as_str(), k, nones.as_str()).as_str());
    out.append(setters.as_str());
    out.append(build_fn_exec(ty, bty.as_str(), k, builds.as_str()).as_str());
    Ok(out)
}

/// The builder struct.
fn builder_struct_exec(bty: &str, k: usize, bfields: &str) -> (r: String)
    ensures
        r@ == builder_struct_text(bty@, k as nat, bfields@),
{
    let markers = all_markers_exec(k);
    let mut out = cat3(" #[allow(non_camel_case_types)] pub struct ", bty, " ");
    out.append(angled_exec(k, markers.as_str()).as_str());
    out.append(" { ");
    out.append(bfields);
    let ghost before = out@;
    if k > 0 {
        out.append(" , __markers: ::core::marker::PhantomData<( ");
        out.append(markers.as_str());
        out.append(" )>");
    }
    assert(out@ =~= before + markers_field(k as nat));
    out.append(" } ");
    out
}

/// `Props::builder()`.
fn builder_fn_exec(ty: &str, bty: &str, k: usize, nones: &str) -> (r: String)
    ensures
        r@ == builder_fn_text(ty@, bty@, k as nat, nones@),
{
    let mut out = cat3("impl ", ty, " { #[allow(dead_code)] pub fn builder() -> ");
    out.append(bty);
    out.append(" ");
    out.append(angled_exec(k, repeat_join_exec(k, "::vue_rs_dom::builder::Unset").as_str()).as_str());
    out.append(" { ");
    out.append(bty);
    out.append(" { ");
    out.append(nones);
    let ghost before = out@;
    if k > 0 {
        out.append(" , __markers: ::core::marker::PhantomData");
    }
    assert(out@ =~= before + markers_init(k as nat));
    out.append(" } } } ");
    out
}

/// `build()`.
fn build_fn_exec(ty: &str, bty: &str, k: usize, builds: &str) -> (r: String)
    ensures
        r@ == build_fn_text(ty@, bty@, k as nat, builds@),
{
    let mut out = cat3("impl ", bty, " ");
    out.append(angled_exec(k, repeat_join_exec(k, "::vue_rs_dom::builder::Set").as_str()).as_str());
    out.append(" { #[allow(dead_code)] pub fn build(self) -> ");
    out.append(ty);
    out.append(" { ");
    out.append(ty);
    out.append(" { ");
    out.append(builds);
    out.append(" } } }");
    out
}

} // verus!

verus! {

// --- `#[derive(Reactive)]` ------------------------------------------------------------

/// What a type declaration is made of, for `#[derive(Reactive)]`.
pub enum DataDecl {
    /// A struct, with its fields.
    Struct(FieldsDecl),
    /// An enum.
    Enum,
    /// A union.
    Union,
}

/// A type declaration a derive is applied to.
pub struct DeriveDecl {
    /// Its visibility as spelled.
    pub vis: String,
    /// Its name.
    pub name: String,
    /// Whether it declares generic parameters.
    pub has_params: bool,
    /// Its data.
    pub data: DataDecl,
}

/// A `#[reactive]` field embeds its own companion instead of a `Signal`.
pub open spec fn reactive_field(f: FieldDecl) -> bool {
    exists|i: int| 0 <= i < f.attrs@.len() && attr_named(#[trigger] f.attrs@[i], "reactive"@)
}

/// The companion field type: `Signal<T>`, or `<T as Reactive>::Target` for a
/// `#[reactive]` field.
pub open spec fn companion_ty(f: FieldDecl) -> Seq<char> {
    if reactive_field(f) {
        "< "@ + f.ty@ + " as ::vue_rs_reactive::Reactive > ::Target"@
    } else {
        "::vue_rs_reactive::Signal< "@ + f.ty@ + " >"@
    }
}

/// The companion fields, initializers, read-only fields and read-only
/// initializers for the fields from `j` on, each followed by `, `.
pub open spec fn reactive_pieces(fs: Seq<FieldDecl>, j: int, cf: Seq<char>, inits: Seq<char>, rf: Seq<char>, rinits: Seq<char>) -> (
    Seq<char>,
    Seq<char>,
    Seq<char>,
    Seq<char>,
)
    decreases fs.len() - j,
{
    if j < 0 || j >= fs.len() {
        (cf, inits, rf, rinits)
    } else {
        let f = fs[j];
        let n = f.name@;
        reactive_pieces(
            fs,
            j + 1,
            cf + f.vis@ + " "@ + n + ": "@ + companion_ty(f) + ", "@,
            inits + n + (if reactive_field(f) { ": ::vue_rs_reactive::reactive(self."@ } else {
                ": ::vue_rs_reactive::signal(self."@
            }) + n + "), "@,
            rf + f.vis@ + " "@ + n + ": < "@ + companion_ty(f) + " as ::vue_rs_reactive::Readonly > ::Target, "@,
            rinits + n + ": ::vue_rs_reactive::readonly(self."@ + n + "), "@,
        )
    }
}

/// The companion, read-only view and impls `#[derive(Reactive)]` generates, or
/// why it refuses the input.
pub open spec fn reactive_code(input: DeriveDecl) -> Result<Seq<char>, Seq<char>> {
    if input.has_params {
        Err("#[derive(Reactive)] does not support generic structs"@)
    } else {
        match input.data {
            DataDecl::Struct(FieldsDecl::Named(fields, _)) => {
                let name = input.name@;
                let companion = name + "Reactive"@;
                let readonly = name + "Readonly"@;
                let (cf, inits, rf, rinits) = reactive_pieces(
                    fields@,
                    0,
                    Seq::<char>::empty(),
                    Seq::<char>::empty(),
                    Seq::<char>::empty(),
                    Seq::<char>::empty(),
                );
                Ok(reactive_structs_text(input.vis@, companion, readonly, cf, rf) + reactive_impls_text(
                    name,
                    companion,
                    readonly,
                    inits,
                    rinits,
                ))
            },
            DataDecl::Struct(_) => Err("#[derive(Reactive)] requires a struct with named fields"@),
            _ => Err("#[derive(Reactive)] can only be applied to structs"@),
        }
    }
}

/// The companion struct and the read-only view struct.
pub open spec fn reactive_structs_text(vis: Seq<char>, companion: Seq<char>, readonly: Seq<char>, cf: Seq<char>, rf: Seq<char>) -> Seq<char> {
    "#[derive(Clone, Copy)] "@ + vis + " struct "@ + companion + " { "@ + cf + "} #[derive(Clone, Copy)] "@ + vis
        + " struct "@ + readonly + " { "@ + rf + "} "@
}

/// The `Reactive`, `Readonly` and `From` impls.
pub open spec fn reactive_impls_text(name: Seq<char>, companion: Seq<char>, readonly: Seq<char>, inits: Seq<char>, rinits: Seq<char>) -> Seq<char> {
    "impl ::vue_rs_reactive::Reactive for "@ + name + " { type Target = "@ + companion
        + "; fn into_reactive(self) -> Self::Target { "@ + companion + " { "@ + inits
        + "} } } impl ::vue_rs_reactive::Readonly for "@ + companion + " { type Target = "@ + readonly
        + "; fn into_readonly(self) -> Self::Target { "@ + readonly + " { "@ + rinits
        + "} } } impl ::core::convert::From< "@ + companion + " > for "@ + readonly + " { fn from(companion: "@
        + companion + ") -> Self { ::vue_rs_reactive::readonly(companion) } }"@
}

/// Whether field `f` is marked `#[reactive]`.
fn is_reactive_field(f: &FieldDecl) -> (r: bool)
    ensures
        r == reactive_field(*f),
{
    let mut i: usize = 0;
    while i < f.attrs.len()
        invariant
            i <= f.attrs@.len(),
            forall|j: int| 0 <= j < i ==> !attr_named(#[trigger] f.attrs@[j], "reactive"@),
        decreases f.attrs@.len() - i,
    {
        let named = match &f.attrs[i].ident {
            Some(p) => str_eq(p.as_str(), "reactive"),
            None => false,
        };
        if named {
            assert(attr_named(f.attrs@[i as int], "reactive"@));
            return true;
        }
        i += 1;
    }
    false
}

/// The companion field type of `f`.
fn companion_ty_exec(f: &FieldDecl) -> (r: String)
    ensures
        r@ == companion_ty(*f),
{
    if is_reactive_field(f) {
        cat3("< ", f.ty.as_str(), " as ::vue_rs_reactive::Reactive > ::Target")
    } else {
        cat3("::vue_rs_reactive::Signal< ", f.ty.as_str(), " >")
    }
}

/// `#[derive(Reactive)]`: for `struct State { count: i32 }` generate
/// `struct StateReactive { count: Signal<i32> }`, the read-only view
/// `StateReadonly`, `impl Reactive for State`, `impl Readonly for
/// StateReactive`, and `From<StateReactive> for StateReadonly`. A field marked
/// `#[reactive]` embeds its own companion. Only non-generic structs with named
/// fields are accepted.
pub fn gen_reactive(input: &DeriveDecl) -> (r: Result<String, String>)
    ensures
        match r {
            Ok(t) => reactive_code(*input) == Ok::<_, Seq<char>>(t@),
            Err(e) => reactive_code(*input) == Err::<Seq<char>, _>(e@),
        },
{
    if input.has_params {
        return Err(String::from_str("#[derive(Reactive)] does not support generic structs"));
    }
    let fs = match &input.data {
        DataDecl::Struct(FieldsDecl::Named(fs, _)) => fs,
        DataDecl::Struct(_) => return Err(String::from_str("#[derive(Reactive)] requires a struct with named fields")),
        _ => return Err(String::from_str("#[derive(Reactive)] can only be applied to structs")),
    };
    let name = input.name.as_str();
    let companion = crate::text::cat(name, "Reactive");
    let readonly = crate::text::cat(name, "Readonly");
    let mut cf = String::new();
    let mut inits = String::new();
    let mut rf = String::new();
    let mut rinits = String::new();
    let mut j: usize = 0;
    while j < fs.len()
        invariant
            j <= fs@.len(),
            reactive_pieces(
                fs@,
                0,
                Seq::<char>::empty(),
                Seq::<char>::empty(),
                Seq::<char>::empty(),
                Seq::<char>::empty(),
            ) == reactive_pieces(fs@, j as int, cf@, inits@, rf@, rinits@),
        decreases fs@.len() - j,
    {
        let f = &fs[j];
        let n = f.name.as_str();
        let cty = companion_ty_exec(f);
        cf.append(f.vis.as_str());
        cf.append(" ");
        cf.append(n);
        cf.append(": ");
        cf.append(cty.as_str());
        cf.append(", ");
        inits.append(n);
        if is_reactive_field(f) {
            inits.append(": ::vue_rs_reactive::reactive(self.");
        } else {
            inits.append(": ::vue_rs_reactive::signal(self.");
        }
        inits.append(n);
        inits.append("), ");
        rf.append(f.vis.as_str());
        rf.append(" ");
        rf.append(n);
        rf.append(": < ");
        rf.append(cty.as_str());
        rf.append(" as ::vue_rs_reactive::Readonly > ::Target, ");
        rinits.append(n);
        rinits.append(": ::vue_rs_reactive::readonly(self.");
        rinits.append(n);
        rinits.append("), ");
        j += 1;
    }
    let mut out = String::from_str("#[derive(Clone, Copy)] ");
    out.append(input.vis.as_str());
    out.append(" struct ");
    out.append(companion.as_str());
    out.append(" { ");
    out.append(cf.as_str());
    out.append("} #[derive(Clone, Copy)] ");
    out.append(input.vis.as_str());
    out.append(" struct ");
    out.append(readonly.as_str());
    out.append(" { ");
    out.append(rf.as_str());
    out.append("} ");
    let mut impls = cat3("impl ::vue_rs_reactive::Reactive for ", name, " { type Target = ");
    impls.append(companion.as_str());
    impls.append("; fn into_reactive(self) -> Self::Target { ");
    impls.append(companion.as_str());
    impls.append(" { ");
    impls.append(inits.as_str());
    impls.append("} } } impl ::vue_rs_reactive::Readonly for ");
    impls.append(companion.as_str());
    impls.append(" { type Target = ");
    impls.append(readonly.as_str());
    impls.append("; fn into_readonly(self) -> Self::Target { ");
    impls.append(readonly.as_str());
    impls.append(" { ");
    impls.append(rinits.as_str());
    impls.append("} } } impl ::core::convert::From< ");
    impls.append(companion.as_str());
    impls.append(" > for ");
    impls.append(readonly.as_str());
    impls.append(" { fn from(companion: ");
    impls.append(companion.as_str());
    impls.append(") -> Self { ::vue_rs_reactive::readonly(companion) } }");
    out.append(impls.as_str());
    Ok(out)
}

} // verus!

verus! {

/// The setter impls for the fields from `j` on, each at its position among
/// the required props.
pub open spec fn setters_from(fs: Seq<FieldDecl>, k: nat, bty: Seq<char>, j: int) -> Seq<char>
    decreases fs.len() - j,
{
    if j < 0 || j >= fs.len() {
        Seq::<char>::empty()
    } else {
        setter_text(fs, fs[j], required_upto(fs, j), k, bty) + setters_from(fs, k, bty, j + 1)
    }
}

/// A field is a required prop.
pub open spec fn required_field() -> spec_fn(FieldDecl) -> bool {
    |f: FieldDecl| required(f)
}

/// The setters collected from field `j` on are the setters of those fields.
proof fn lemma_field_pieces_setters(
    fs: Seq<FieldDecl>,
    k: nat,
    bty: Seq<char>,
    j: int,
    bfields: Seq<char>,
    nones: Seq<char>,
    setters: Seq<char>,
    builds: Seq<char>,
)
    requires
        0 <= j <= fs.len(),
    ensures
        field_pieces(fs, k, bty, j, required_upto(fs, j), bfields, nones, setters, builds).2
            == setters + setters_from(fs, k, bty, j),
    decreases fs.len() - j,
{
    if j < fs.len() {
        let f = fs[j];
        lemma_field_pieces_setters(
            fs,
            k,
            bty,
            j + 1,
            join_add(bfields, f.name@ + ": ::core::option::Option< "@ + f.ty@ + " >"@),
            join_add(nones, f.name@ + ": ::core::option::Option::None"@),
            setters + setter_text(fs, f, required_upto(fs, j), k, bty),
            join_add(builds, build_init_text(f)),
        );
        assert(setters + setter_text(fs, f, required_upto(fs, j), k, bty) + setters_from(fs, k, bty, j + 1)
            =~= setters + setters_from(fs, k, bty, j));
    } else {
        assert(setters + Seq::<char>::empty() =~= setters);
    }
}

/// The required props among the first `n` fields are counted by
/// `required_upto`, and a later required prop stands at a higher position.
proof fn lemma_required_positions(fs: Seq<FieldDecl>, n: int)
    requires
        0 <= n <= fs.len(),
    ensures
        required_upto(fs, n) == fs.take(n).filter(required_field()).len(),
        forall|j: int| 0 <= j < n && required(#[trigger] fs[j]) ==> required_upto(fs, j) < required_upto(fs, n),
        forall|i: int, j: int| 0 <= i <= j <= n ==> required_upto(fs, i) <= required_upto(fs, j),
    decreases n,
{
    if n == 0 {
        assert(fs.take(0) =~= Seq::<FieldDecl>::empty());
    } else {
        lemma_required_positions(fs, n - 1);
        lemma_filter_take_step(fs, n - 1, required_field());
    }
}

/// The props builder's shape: for a non-generic props struct with named
/// fields whose `#[prop ..]` attributes all read, the code is the struct with
/// its `#[prop ..]` attributes removed, then a builder with one marker type
/// parameter per required prop, `builder()` starting with every marker unset,
/// one setter per field in order (a required prop's setter turning only its
/// own marker, at its place among the required props, from unset to set),
/// and `build()` only where every marker is set. Required props stand at
/// distinct marker places.
pub proof fn law_props_builder_shape(item: StructDecl)
    requires
        !item.has_params,
        item.fields matches FieldsDecl::Named(fields, _) && first_default_error(fields@, 0) is None,
    ensures
        match item.fields {
            FieldsDecl::Named(fields, trailing) => {
                let fs = fields@;
                let ty = item.name@;
                let bty = ty + "Builder"@;
                let k = fs.filter(required_field()).len();
                &&& required_upto(fs, fs.len() as int) == k
                &&& exists|bfields: Seq<char>, nones: Seq<char>, builds: Seq<char>|
                    props_builder_code(item) == Ok::<Seq<char>, Seq<char>>(
                        cleaned_struct(item, fs, trailing) + builder_struct_text(bty, k, bfields)
                            + builder_fn_text(ty, bty, k, nones) + setters_from(fs, k, bty, 0)
                            + build_fn_text(ty, bty, k, builds),
                    )
                &&& forall|j: int| 0 <= j < fs.len() && required(#[trigger] fs[j]) ==> required_upto(fs, j) < k
                &&& forall|i: int, j: int|
                    0 <= i < j < fs.len() && required(#[trigger] fs[i]) && required(#[trigger] fs[j])
                        ==> required_upto(fs, i) < required_upto(fs, j)
            },
            _ => false,
        },
{
    match item.fields {
        FieldsDecl::Named(fields, trailing) => {
            let fs = fields@;
            let n = fs.len() as int;
            lemma_required_positions(fs, n);
            assert(fs.take(n) =~= fs);
            let ty = item.name@;
            let bty = ty + "Builder"@;
            let k = required_upto(fs, n);
            let e = Seq::<char>::empty();
            lemma_field_pieces_setters(fs, k, bty, 0, e, e, e, e);
            let pieces = field_pieces(fs, k, bty, 0, 0, e, e, e, e);
            assert(e + setters_from(fs, k, bty, 0) =~= setters_from(fs, k, bty, 0));
            assert(props_builder_code(item) == Ok::<Seq<char>, Seq<char>>(
                cleaned_struct(item, fs, trailing) + builder_struct_text(bty, k, pieces.0)
                    + builder_fn_text(ty, bty, k, pieces.1) + setters_from(fs, k, bty, 0)
                    + build_fn_text(ty, bty, k, pieces.3),
            ));
            assert forall|i: int, j: int|
                0 <= i < j < fs.len() && required(#[trigger] fs[i]) && required(#[trigger] fs[j])
                    implies required_upto(fs, i) < required_upto(fs, j) by {
                lemma_required_positions(fs, j);
            }
        },
        _ => {},
    }
}

} // verus!

verus! {

/// The `with_<name>` setters of the slot definitions from `k` on.
pub open spec fn slot_setters_from(defs: Seq<(Seq<char>, Seq<char>)>, k: int) -> Seq<char>
    decreases defs.len() - k,
{
    if k < 0 || k >= defs.len() {
        Seq::<char>::empty()
    } else {
        slot_setter_text(defs[k].0, defs[k].1) + slot_setters_from(defs, k + 1)
    }
}

/// The setters collected from definition `k` on are those definitions' setters.
proof fn lemma_slot_pieces_setters(
    defs: Seq<(Seq<char>, Seq<char>)>,
    k: int,
    fields: Seq<char>,
    defaults: Seq<char>,
    setters: Seq<char>,
)
    requires
        0 <= k <= defs.len(),
    ensures
        slot_pieces(defs, k, fields, defaults, setters).2 == setters + slot_setters_from(defs, k),
    decreases defs.len() - k,
{
    if k < defs.len() {
        let sep = if k == 0 { Seq::<char>::empty() } else { ", "@ };
        lemma_slot_pieces_setters(
            defs,
            k + 1,
            fields + sep + slot_field_text(defs[k].0, defs[k].1),
            defaults + sep + slot_default_text(defs[k].0),
            setters + slot_setter_text(defs[k].0, defs[k].1),
        );
        assert(setters + slot_setter_text(defs[k].0, defs[k].1) + slot_setters_from(defs, k + 1)
            =~= setters + slot_setters_from(defs, k));
    } else {
        assert(setters + Seq::<char>::empty() =~= setters);
    }
}

/// Definition `j`'s setter stands among the setters from `k` on.
proof fn lemma_slot_setter_among(defs: Seq<(Seq<char>, Seq<char>)>, k: int, j: int)
    requires
        0 <= k <= j < defs.len(),
    ensures
        exists|a: Seq<char>, b: Seq<char>|
            slot_setters_from(defs, k) == a + #[trigger] slot_setter_text(defs[j].0, defs[j].1) + b,
    decreases j - k,
{
    if k == j {
        assert(slot_setters_from(defs, k) == Seq::<char>::empty() + slot_setter_text(defs[j].0, defs[j].1)
            + slot_setters_from(defs, k + 1));
    } else {
        lemma_slot_setter_among(defs, k + 1, j);
        let (a, b) = choose|a: Seq<char>, b: Seq<char>|
            slot_setters_from(defs, k + 1) == a + #[trigger] slot_setter_text(defs[j].0, defs[j].1) + b;
        let a2 = slot_setter_text(defs[k].0, defs[k].1) + a;
        assert(slot_setters_from(defs, k) =~= a2 + slot_setter_text(defs[j].0, defs[j].1) + b);
    }
}

/// Each used slot gets a `with_<name>` setter that fills that slot with the
/// parent's builder: the setter assigns `Some(SlotFn::new(builder))` to the
/// slot's own field, so the parent's content is what the slot renders.
pub proof fn law_slot_setters_fill_their_slots(ty: Seq<char>, defs: Seq<(Seq<char>, Seq<char>)>, j: int)
    requires
        0 <= j < defs.len(),
    ensures
        exists|pre: Seq<char>, mid: Seq<char>, post: Seq<char>|
            slots_struct_code(ty, defs).0 == #[trigger] (pre + "pub fn with_"@ + defs[j].0 + (mid + "self."@ + defs[j].0
                + " = ::core::option::Option::Some(::vue_rs_dom::SlotFn::new(builder));"@) + post),
{
    let e = Seq::<char>::empty();
    lemma_slot_pieces_setters(defs, 0, e, e, e);
    lemma_slot_setter_among(defs, 0, j);
    let (a, b) = choose|a: Seq<char>, b: Seq<char>|
        slot_setters_from(defs, 0) == a + #[trigger] slot_setter_text(defs[j].0, defs[j].1) + b;
    reveal_strlit(" ) -> B::Node + 'static) -> Self { self.");
    reveal_strlit(" ) -> B::Node + 'static) -> Self { ");
    reveal_strlit("self.");
    reveal_strlit(" = ::core::option::Option::Some(::vue_rs_dom::SlotFn::new(builder)); self } ");
    reveal_strlit(" = ::core::option::Option::Some(::vue_rs_dom::SlotFn::new(builder));");
    reveal_strlit(" self } ");
    let (f, p) = defs[j];
    let mid = "(mut self, builder: impl Fn(B, "@ + p + " ) -> B::Node + 'static) -> Self { "@;
    assert(" ) -> B::Node + 'static) -> Self { self."@ =~= " ) -> B::Node + 'static) -> Self { "@ + "self."@);
    assert(" = ::core::option::Option::Some(::vue_rs_dom::SlotFn::new(builder)); self } "@
        =~= " = ::core::option::Option::Some(::vue_rs_dom::SlotFn::new(builder));"@ + " self } "@);
    assert(slot_setter_text(f, p) =~= "pub fn with_"@ + f + (mid + "self."@ + f
        + " = ::core::option::Option::Some(::vue_rs_dom::SlotFn::new(builder));"@) + " self } "@);
    let (fields, defaults, setters) = slot_pieces(defs, 0, e, e, e);
    let code = slots_struct_code(ty, defs).0;
    let head = "#[allow(non_camel_case_types)] pub struct "@ + ty + "<B: ::vue_rs_dom::Backend> { "@ + fields
        + " } impl<B: ::vue_rs_dom::Backend> ::core::default::Default for "@ + ty
        + "<B> { fn default() -> Self { Self { "@ + defaults + " } } } impl<B: ::vue_rs_dom::Backend> "@ + ty
        + "<B> { #[doc = r\" All slots unset; pins the backend type from a value so the\"] #[doc = r\" parent's slot closures can infer their parameter types.\"] pub fn for_backend(_backend: &B) -> Self { ::core::default::Default::default() } "@;
    assert(setters == e + slot_setters_from(defs, 0));
    assert(code =~= (head + a) + "pub fn with_"@ + defs[j].0 + (mid + "self."@ + defs[j].0
        + " = ::core::option::Option::Some(::vue_rs_dom::SlotFn::new(builder));"@) + (" self } "@ + b + "}"@));
}

} // verus!
