//! Properties of the template lowering that hold for every template.
use vstd::prelude::*;
use crate::compiler::ast::{ElementV, NodeV};
use crate::compiler::codegen::{
    attrs_code, children_code, comp_setters, component_code, element_code, fallback_code, for_code, head_code,
    if_chain_code, members_code, record, root_code, single_root_code, slot_code, template_code, GenCtx, GenErrorV,
    RadioV, Slots,
};
use crate::compiler::parser::spec_parse;

verus! {

/// No two recorded `<slot>`s share a name.
pub open spec fn names_unique(s: Slots) -> bool {
    forall|i: int, j: int| 0 <= i < j < s.len() ==> (#[trigger] s[i]).0 != (#[trigger] s[j]).0
}

/// `b` is `a` with entries appended only, and keeps names unique when `a` does.
pub open spec fn extends(a: Slots, b: Slots) -> bool {
    &&& a.len() <= b.len()
    &&& b.subrange(0, a.len() as int) == a
    &&& names_unique(a) ==> names_unique(b)
}

/// What a lowering step did to the recorded slots, if it succeeded.
pub open spec fn step_ok<T>(before: Slots, out: Result<(T, Slots), crate::compiler::codegen::GenErrorV>) -> bool {
    out is Ok ==> extends(before, out->Ok_0.1)
}

proof fn lemma_extends_refl(a: Slots)
    ensures
        extends(a, a),
{
    assert(a.subrange(0, a.len() as int) =~= a);
}

proof fn lemma_extends_trans(a: Slots, b: Slots, c: Slots)
    requires
        extends(a, b),
        extends(b, c),
    ensures
        extends(a, c),
{
    assert(c.subrange(0, a.len() as int) =~= c.subrange(0, b.len() as int).subrange(0, a.len() as int));
}

/// Recording a `<slot>` appends it when its name is new and otherwise changes
/// nothing, so the recorded names stay distinct.
pub proof fn law_record_extends(slots: Slots, name: Seq<char>, scoped: bool)
    ensures
        extends(slots, record(slots, name, scoped)),
        record(record(slots, name, scoped), name, scoped) == record(slots, name, scoped),
        exists|i: int| 0 <= i < record(slots, name, scoped).len() && (#[trigger] record(slots, name, scoped)[i]).0 == name,
{
    let r = record(slots, name, scoped);
    if exists|i: int| 0 <= i < slots.len() && (#[trigger] slots[i]).0 == name {
        lemma_extends_refl(slots);
    } else {
        assert(r.subrange(0, slots.len() as int) =~= slots);
        assert(r[slots.len() as int].0 == name);
        if names_unique(slots) {
            assert forall|i: int, j: int| 0 <= i < j < r.len() implies (#[trigger] r[i]).0 != (#[trigger] r[j]).0 by {
                if j == slots.len() {
                    assert(slots[i] == r[i]);
                } else {
                    assert(slots[i] == r[i] && slots[j] == r[j]);
                }
            }
        }
    }
    assert(r[r.len() - 1].0 == name || exists|i: int| 0 <= i < slots.len() && (#[trigger] slots[i]).0 == name);
}

proof fn lemma_element_slots(cx: GenCtx, el: ElementV, slots: Slots)
    ensures
        step_ok(slots, element_code(cx, el, slots)),
    decreases el, el.children.len() + 5,
{
    if el.tag == "slot"@ {
        lemma_slot_slots(cx, el, slots);
    } else if crate::compiler::directives::component_tag(el.tag) {
        lemma_component_slots(cx, el, slots);
    } else {
        lemma_extends_refl(slots);
        lemma_children_slots(cx, el.children, 0, crate::compiler::codegen::head_code(cx, el)->Ok_0, slots);
    }
}

proof fn lemma_slot_slots(cx: GenCtx, el: ElementV, slots: Slots)
    ensures
        step_ok(slots, slot_code(cx, el, slots)),
    decreases el, el.children.len() + 4,
{
    lemma_fallback_slots(cx, el, slots);
    let name = match crate::compiler::directives::static_attr(el, "name"@) {
        Some(v) => v,
        None => "default"@,
    };
    match fallback_code(cx, el, slots) {
        Err(_) => {},
        Ok((_, s1)) => {
            law_record_extends(s1, name, false);
            law_record_extends(s1, name, true);
            lemma_extends_trans(slots, s1, record(s1, name, false));
            lemma_extends_trans(slots, s1, record(s1, name, true));
        },
    }
}

proof fn lemma_fallback_slots(cx: GenCtx, el: ElementV, slots: Slots)
    ensures
        step_ok(slots, fallback_code(cx, el, slots)),
    decreases el, el.children.len() + 3,
{
    lemma_extends_refl(slots);
    let n = crate::compiler::codegen::elem_count(el.children, 0);
    if n == 1 {
        let d = crate::compiler::codegen::first_elem(el.children, 0);
        if 0 <= d < el.children.len() {
            match el.children[d] {
                NodeV::Element(e) => {
                    assert(decreases_to!(el => el.children[d]));
                    lemma_element_slots(cx, e, slots);
                },
                _ => {},
            }
        }
    }
}

proof fn lemma_single_root_slots(cx: GenCtx, cs: Seq<NodeV>, slots: Slots)
    ensures
        step_ok(slots, single_root_code(cx, cs, slots)),
    decreases cs, 0int,
{
    if crate::compiler::codegen::elem_count(cs, 0) == 1 {
        let d = crate::compiler::codegen::first_elem(cs, 0);
        if 0 <= d < cs.len() {
            match cs[d] {
                NodeV::Element(e) => {
                    assert(decreases_to!(cs => cs[d]));
                    lemma_element_slots(cx, e, slots);
                },
                _ => {},
            }
        }
    }
}

proof fn lemma_component_slots(cx: GenCtx, el: ElementV, slots: Slots)
    ensures
        step_ok(slots, component_code(cx, el, slots)),
    decreases el, el.children.len() + 4,
{
    lemma_comp_setters_slots(cx, el, 0, Seq::<char>::empty(), slots);
    match comp_setters(cx, el, 0, Seq::<char>::empty(), slots) {
        Err(_) => {},
        Ok((_, s1)) => {
            lemma_extends_refl(s1);
            let n = crate::compiler::codegen::default_count(el.children, 0);
            if n == 1 {
                let d = crate::compiler::codegen::first_default(el.children, 0);
                if 0 <= d < el.children.len() {
                    match el.children[d] {
                        NodeV::Element(e) => {
                            assert(decreases_to!(el => el.children[d]));
                            lemma_element_slots(cx, e, s1);
                            match element_code(cx, e, s1) {
                                Err(_) => {},
                                Ok((_, s2)) => lemma_extends_trans(slots, s1, s2),
                            }
                        },
                        _ => {},
                    }
                }
            }
        },
    }
}

proof fn lemma_comp_setters_slots(cx: GenCtx, el: ElementV, k: int, setters: Seq<char>, slots: Slots)
    ensures
        step_ok(slots, comp_setters(cx, el, k, setters, slots)),
    decreases el, el.children.len() - k + 1,
{
    if k < 0 || k >= el.children.len() {
        lemma_extends_refl(slots);
    } else {
        match el.children[k] {
            NodeV::Element(c) => if c.tag == "template"@ && crate::compiler::directives::slot_dir(c) is Some {
                let (name, binding) = crate::compiler::directives::slot_dir(c)->0;
                assert(decreases_to!(el => el.children[k]));
                lemma_single_root_slots(cx, c.children, slots);
                match single_root_code(cx, c.children, slots) {
                    Err(_) => {},
                    Ok((content, s1)) => {
                        let a = setters + " .with_"@ + name + "(move |__backend, ()| "@ + content + " )"@;
                        lemma_comp_setters_slots(cx, el, k + 1, a, s1);
                        if comp_setters(cx, el, k + 1, a, s1) is Ok {
                            lemma_extends_trans(slots, s1, comp_setters(cx, el, k + 1, a, s1)->Ok_0.1);
                        }
                        match crate::compiler::tokens::lexed(binding) {
                            Err(_) => {},
                            Ok(pat) => {
                                let b = setters + " .with_"@ + name + "(move |__backend, "@ + pat + " | "@ + content + " )"@;
                                lemma_comp_setters_slots(cx, el, k + 1, b, s1);
                                if comp_setters(cx, el, k + 1, b, s1) is Ok {
                                    lemma_extends_trans(slots, s1, comp_setters(cx, el, k + 1, b, s1)->Ok_0.1);
                                }
                            },
                        }
                    },
                }
            } else {
                lemma_comp_setters_slots(cx, el, k + 1, setters, slots);
            },
            _ => lemma_comp_setters_slots(cx, el, k + 1, setters, slots),
        }
    }
}

proof fn lemma_children_slots(cx: GenCtx, cs: Seq<NodeV>, i: int, chain: Seq<char>, slots: Slots)
    ensures
        step_ok(slots, children_code(cx, cs, i, chain, slots)),
    decreases cs, cs.len() - i + 1,
{
    if i < 0 || i >= cs.len() {
        lemma_extends_refl(slots);
    } else {
        match cs[i] {
            NodeV::StaticText(t) => lemma_children_slots(
                cx, cs, i + 1, chain + " .text("@ + crate::compiler::tokens::str_lit(t) + ")"@, slots),
            NodeV::DynText(e) => match crate::compiler::tokens::expr_code(e) {
                Err(_) => {},
                Ok(x) => lemma_children_slots(
                    cx, cs, i + 1, chain + " .dyn_text(move || ( "@ + x + " ).to_string())"@, slots),
            },
            NodeV::Element(el) => {
                assert(decreases_to!(cs => cs[i]));
                match crate::compiler::directives::static_attr(el, "v-for"@) {
                    Some(fe) => {
                        lemma_for_slots(cx, el, fe, slots);
                        match for_code(cx, el, fe, slots) {
                            Err(_) => {},
                            Ok((p, s1)) => {
                                lemma_children_slots(cx, cs, i + 1, chain + " "@ + p, s1);
                                if children_code(cx, cs, i + 1, chain + " "@ + p, s1) is Ok {
                                    lemma_extends_trans(slots, s1, children_code(cx, cs, i + 1, chain + " "@ + p, s1)->Ok_0.1);
                                }
                            },
                        }
                    },
                    None => if crate::compiler::directives::static_attr(el, "v-if"@) is Some {
                        let j = crate::compiler::codegen::chain_end(cs, i + 1);
                        if i < j <= cs.len() {
                            let none = "::core::option::Option::None"@;
                            lemma_if_chain_slots(cx, cs, i, j, i, Seq::<char>::empty(), Seq::<char>::empty(), none, slots);
                            match if_chain_code(cx, cs, i, j, i, Seq::<char>::empty(), Seq::<char>::empty(), none, slots) {
                                Err(_) => {},
                                Ok((p, s1)) => {
                                    lemma_children_slots(cx, cs, j, chain + " "@ + p, s1);
                                    if children_code(cx, cs, j, chain + " "@ + p, s1) is Ok {
                                        lemma_extends_trans(slots, s1, children_code(cx, cs, j, chain + " "@ + p, s1)->Ok_0.1);
                                    }
                                },
                            }
                        }
                    } else {
                        lemma_element_slots(cx, el, slots);
                        match element_code(cx, el, slots) {
                            Err(_) => {},
                            Ok((c, s1)) => {
                                lemma_children_slots(cx, cs, i + 1, chain + " .child( "@ + c + " )"@, s1);
                                if children_code(cx, cs, i + 1, chain + " .child( "@ + c + " )"@, s1) is Ok {
                                    lemma_extends_trans(slots, s1, children_code(cx, cs, i + 1, chain + " .child( "@ + c + " )"@, s1)->Ok_0.1);
                                }
                            },
                        }
                    },
                }
            },
        }
    }
}

proof fn lemma_if_chain_slots(
    cx: GenCtx,
    cs: Seq<NodeV>,
    i: int,
    j: int,
    k: int,
    sel: Seq<char>,
    pushes: Seq<char>,
    tail: Seq<char>,
    slots: Slots,
)
    ensures
        step_ok(slots, if_chain_code(cx, cs, i, j, k, sel, pushes, tail, slots)),
    decreases cs, cs.len() - k,
{
    if k < 0 || k >= j || k >= cs.len() {
        lemma_extends_refl(slots);
    } else {
        match cs[k] {
            NodeV::Element(el) => {
                assert(decreases_to!(cs => cs[k]));
                lemma_element_slots(cx, el, slots);
                match element_code(cx, el, slots) {
                    Err(_) => {},
                    Ok((view, s1)) => {
                        let push = "__views.push(::std::boxed::Box::new(move |__backend| "@ + view + " )); "@;
                        match crate::compiler::codegen::arm_cond(cs, i, k) {
                            Some(c) => match crate::compiler::tokens::expr_code(c) {
                                Err(_) => {},
                                Ok(x) => {
                                    let sel2 = sel + "if ( "@ + x + " ) { return ::core::option::Option::Some("@
                                        + crate::compiler::tokens::usize_lit((k - i) as usize) + "); } "@;
                                    lemma_if_chain_slots(cx, cs, i, j, k + 1, sel2, pushes + push, tail, s1);
                                    if if_chain_code(cx, cs, i, j, k + 1, sel2, pushes + push, tail, s1) is Ok {
                                        lemma_extends_trans(slots, s1,
                                            if_chain_code(cx, cs, i, j, k + 1, sel2, pushes + push, tail, s1)->Ok_0.1);
                                    }
                                },
                            },
                            None => {
                                let tail2 = "::core::option::Option::Some("@
                                    + crate::compiler::tokens::usize_lit((k - i) as usize) + ")"@;
                                lemma_if_chain_slots(cx, cs, i, j, k + 1, sel, pushes + push, tail2, s1);
                                if if_chain_code(cx, cs, i, j, k + 1, sel, pushes + push, tail2, s1) is Ok {
                                    lemma_extends_trans(slots, s1,
                                        if_chain_code(cx, cs, i, j, k + 1, sel, pushes + push, tail2, s1)->Ok_0.1);
                                }
                            },
                        }
                    },
                }
            },
            _ => {},
        }
    }
}

proof fn lemma_for_slots(cx: GenCtx, el: ElementV, fe: Seq<char>, slots: Slots)
    ensures
        step_ok(slots, for_code(cx, el, fe, slots)),
    decreases el, el.children.len() + 6,
{
    lemma_element_slots(cx, el, slots);
}

proof fn lemma_members_slots(cx: GenCtx, nodes: Seq<NodeV>, k: int, acc: Seq<Seq<char>>, slots: Slots)
    ensures
        step_ok(slots, members_code(cx, nodes, k, acc, slots)),
    decreases nodes.len() - k,
{
    if k < 0 || k >= nodes.len() {
        lemma_extends_refl(slots);
    } else {
        match nodes[k] {
            NodeV::StaticText(t) => lemma_members_slots(cx, nodes, k + 1, acc.push(
                "::vue_rs_dom::Backend::create_text(&__backend, "@ + crate::compiler::tokens::str_lit(t) + ")"@), slots),
            NodeV::DynText(e) => match crate::compiler::tokens::expr_code(e) {
                Err(_) => {},
                Ok(x) => lemma_members_slots(cx, nodes, k + 1, acc.push(
                    "::vue_rs_dom::dyn_text_node(&__backend, move || ( "@ + x + " ).to_string())"@), slots),
            },
            NodeV::Element(el) => {
                lemma_element_slots(cx, el, slots);
                match element_code(cx, el, slots) {
                    Err(_) => {},
                    Ok((t, s1)) => {
                        lemma_members_slots(cx, nodes, k + 1, acc.push(t), s1);
                        if members_code(cx, nodes, k + 1, acc.push(t), s1) is Ok {
                            lemma_extends_trans(slots, s1, members_code(cx, nodes, k + 1, acc.push(t), s1)->Ok_0.1);
                        }
                    },
                }
            },
        }
    }
}

/// Every `<slot>` a template uses is recorded once, by name, in the order it
/// was first met: whatever the template, a successful lowering reports slots
/// with pairwise distinct names, and lowering the root from a list of slots
/// already seen only appends to that list.
pub proof fn law_slots_recorded_once(template: Seq<char>, cx: GenCtx)
    ensures
        template_code(template, cx) is Ok ==> names_unique(template_code(template, cx)->Ok_0.1),
        forall|nodes: Seq<NodeV>, before: Slots| #[trigger] root_code(cx, nodes, before) is Ok
            ==> extends(before, root_code(cx, nodes, before)->Ok_0.1),
{
    assert forall|nodes: Seq<NodeV>, before: Slots| #[trigger] root_code(cx, nodes, before) is Ok
        implies extends(before, root_code(cx, nodes, before)->Ok_0.1) by {
        lemma_root_slots(cx, nodes, before);
    }
    match spec_parse(template) {
        Err(_) => {},
        Ok(nodes) => {
            lemma_root_slots(cx, nodes, seq![]);
            assert(names_unique(Seq::<(Seq<char>, bool)>::empty()));
        },
    }
}

proof fn lemma_root_slots(cx: GenCtx, nodes: Seq<NodeV>, slots: Slots)
    ensures
        step_ok(slots, root_code(cx, nodes, slots)),
{
    if nodes.len() == 1 && nodes[0] is Element {
        lemma_element_slots(cx, nodes[0]->Element_0, slots);
    } else {
        lemma_members_slots(cx, nodes, 0, seq![], slots);
    }
}

// --- the scope only adds markers -----------------------------------------------

/// Two lowerings end alike: both succeed with the same slots, or both stop
/// with the same error.
pub open spec fn same_outcome<A, B>(a: Result<(A, Slots), GenErrorV>, b: Result<(B, Slots), GenErrorV>) -> bool {
    match (a, b) {
        (Ok((_, s1)), Ok((_, s2))) => s1 == s2,
        (Err(e1), Err(e2)) => e1 == e2,
        _ => false,
    }
}

/// Two attribute chains end alike: both succeed, or both fail with the same message.
pub open spec fn same_text_outcome(a: Result<Seq<char>, Seq<char>>, b: Result<Seq<char>, Seq<char>>) -> bool {
    match (a, b) {
        (Ok(_), Ok(_)) => true,
        (Err(e1), Err(e2)) => e1 == e2,
        _ => false,
    }
}

/// Whether an element's attributes lower does not depend on the chain they follow.
proof fn lemma_attrs_chain_free(
    el: ElementV,
    base: Option<Seq<char>>,
    mc: Option<Seq<char>>,
    ms: Option<Seq<char>>,
    radio: Option<RadioV>,
    k: int,
    class_done: bool,
    style_done: bool,
    c1: Seq<char>,
    c2: Seq<char>,
)
    ensures
        same_text_outcome(
            attrs_code(el, base, mc, ms, radio, k, class_done, style_done, c1),
            attrs_code(el, base, mc, ms, radio, k, class_done, style_done, c2),
        ),
    decreases el.attrs.len() - k,
{
    if 0 <= k < el.attrs.len() {
        let a = el.attrs[k];
        if crate::compiler::directives::structural(a) {
            lemma_attrs_chain_free(el, base, mc, ms, radio, k + 1, class_done, style_done, c1, c2);
        } else if base is Some && crate::compiler::directives::style_attr(a) {
            lemma_attrs_chain_free(el, base, mc, ms, radio, k + 1, class_done, style_done, c1, c2);
        } else if ms is Some && crate::compiler::directives::style_attr(a) {
            lemma_attrs_chain_free(el, base, mc, ms, radio, k + 1, class_done, true, c1, c2);
            lemma_attrs_chain_free(el, base, mc, ms, radio, k + 1, class_done, true, c1 + " "@ + ms->0, c2 + " "@ + ms->0);
        } else if mc is Some && crate::compiler::directives::class_attr(a) {
            lemma_attrs_chain_free(el, base, mc, ms, radio, k + 1, true, style_done, c1, c2);
            lemma_attrs_chain_free(el, base, mc, ms, radio, k + 1, true, style_done, c1 + " "@ + mc->0, c2 + " "@ + mc->0);
        } else {
            match crate::compiler::codegen::attr_code(a, base, el.tag, crate::compiler::codegen::input_type_of(el), radio) {
                Err(_) => {},
                Ok(p) => lemma_attrs_chain_free(el, base, mc, ms, radio, k + 1, class_done, style_done, c1 + " "@ + p, c2 + " "@ + p),
            }
        }
    }
}

/// Whether an element's head lowers does not depend on the scope.
proof fn lemma_head_scope_free(cx1: GenCtx, cx2: GenCtx, el: ElementV)
    ensures
        same_text_outcome(head_code(cx1, el), head_code(cx2, el)),
{
    match crate::compiler::codegen::base_style_of(el) {
        Err(_) => {},
        Ok(base) => match crate::compiler::codegen::merged_class_of(el) {
            Err(_) => {},
            Ok(mc) => match crate::compiler::codegen::merged_style_of(el, base) {
                Err(_) => {},
                Ok(ms) => match crate::compiler::codegen::radio_of(el) {
                    Err(_) => {},
                    Ok(rv) => lemma_attrs_chain_free(el, base, mc, ms, rv, 0, false, false,
                        crate::compiler::codegen::el_start(cx1, el.tag), crate::compiler::codegen::el_start(cx2, el.tag)),
                },
            },
        },
    }
}

proof fn lemma_element_same(cx1: GenCtx, cx2: GenCtx, el: ElementV, slots: Slots)
    requires
        cx1.payloads == cx2.payloads,
    ensures
        same_outcome(element_code(cx1, el, slots), element_code(cx2, el, slots)),
    decreases el, el.children.len() + 5,
{
    if el.tag == "slot"@ {
        lemma_slot_same(cx1, cx2, el, slots);
    } else if crate::compiler::directives::component_tag(el.tag) {
        lemma_component_same(cx1, cx2, el, slots);
    } else {
        lemma_head_scope_free(cx1, cx2, el);
        lemma_children_same(cx1, cx2, el.children, 0, head_code(cx1, el)->Ok_0, head_code(cx2, el)->Ok_0, slots);
    }
}

proof fn lemma_slot_same(cx1: GenCtx, cx2: GenCtx, el: ElementV, slots: Slots)
    requires
        cx1.payloads == cx2.payloads,
    ensures
        same_outcome(slot_code(cx1, el, slots), slot_code(cx2, el, slots)),
    decreases el, el.children.len() + 4,
{
    lemma_fallback_same(cx1, cx2, el, slots);
    assert(crate::compiler::codegen::payload_of(cx1, crate::compiler::directives::static_attr(el, "name"@)->Some_0)
        == crate::compiler::codegen::payload_of(cx2, crate::compiler::directives::static_attr(el, "name"@)->Some_0));
    assert(crate::compiler::codegen::payload_of(cx1, "default"@) == crate::compiler::codegen::payload_of(cx2, "default"@));
}

proof fn lemma_fallback_same(cx1: GenCtx, cx2: GenCtx, el: ElementV, slots: Slots)
    requires
        cx1.payloads == cx2.payloads,
    ensures
        same_outcome(fallback_code(cx1, el, slots), fallback_code(cx2, el, slots)),
    decreases el, el.children.len() + 3,
{
    let n = crate::compiler::codegen::elem_count(el.children, 0);
    if n == 1 {
        let d = crate::compiler::codegen::first_elem(el.children, 0);
        if 0 <= d < el.children.len() {
            match el.children[d] {
                NodeV::Element(e) => {
                    assert(decreases_to!(el => el.children[d]));
                    lemma_element_same(cx1, cx2, e, slots);
                },
                _ => {},
            }
        }
    }
}

proof fn lemma_single_root_same(cx1: GenCtx, cx2: GenCtx, cs: Seq<NodeV>, slots: Slots)
    requires
        cx1.payloads == cx2.payloads,
    ensures
        same_outcome(single_root_code(cx1, cs, slots), single_root_code(cx2, cs, slots)),
    decreases cs, 0int,
{
    if crate::compiler::codegen::elem_count(cs, 0) == 1 {
        let d = crate::compiler::codegen::first_elem(cs, 0);
        if 0 <= d < cs.len() {
            match cs[d] {
                NodeV::Element(e) => {
                    assert(decreases_to!(cs => cs[d]));
                    lemma_element_same(cx1, cx2, e, slots);
                },
                _ => {},
            }
        }
    }
}

proof fn lemma_component_same(cx1: GenCtx, cx2: GenCtx, el: ElementV, slots: Slots)
    requires
        cx1.payloads == cx2.payloads,
    ensures
        same_outcome(component_code(cx1, el, slots), component_code(cx2, el, slots)),
    decreases el, el.children.len() + 4,
{
    lemma_comp_setters_same(cx1, cx2, el, 0, Seq::<char>::empty(), Seq::<char>::empty(), slots);
    match comp_setters(cx1, el, 0, Seq::<char>::empty(), slots) {
        Err(_) => {},
        Ok((_, s1)) => {
            let n = crate::compiler::codegen::default_count(el.children, 0);
            if n == 1 {
                let d = crate::compiler::codegen::first_default(el.children, 0);
                if 0 <= d < el.children.len() {
                    match el.children[d] {
                        NodeV::Element(e) => {
                            assert(decreases_to!(el => el.children[d]));
                            lemma_element_same(cx1, cx2, e, s1);
                        },
                        _ => {},
                    }
                }
            }
        },
    }
}

proof fn lemma_comp_setters_same(
    cx1: GenCtx,
    cx2: GenCtx,
    el: ElementV,
    k: int,
    set1: Seq<char>,
    set2: Seq<char>,
    slots: Slots,
)
    requires
        cx1.payloads == cx2.payloads,
    ensures
        same_outcome(comp_setters(cx1, el, k, set1, slots), comp_setters(cx2, el, k, set2, slots)),
    decreases el, el.children.len() - k + 1,
{
    if 0 <= k < el.children.len() {
        match el.children[k] {
            NodeV::Element(c) => if c.tag == "template"@ && crate::compiler::directives::slot_dir(c) is Some {
                let (name, binding) = crate::compiler::directives::slot_dir(c)->0;
                assert(decreases_to!(el => el.children[k]));
                lemma_single_root_same(cx1, cx2, c.children, slots);
                match (single_root_code(cx1, c.children, slots), single_root_code(cx2, c.children, slots)) {
                    (Ok((content1, s1)), Ok((content2, _))) => {
                        lemma_comp_setters_same(cx1, cx2, el, k + 1,
                            set1 + " .with_"@ + name + "(move |__backend, ()| "@ + content1 + " )"@,
                            set2 + " .with_"@ + name + "(move |__backend, ()| "@ + content2 + " )"@, s1);
                        match crate::compiler::tokens::lexed(binding) {
                            Err(_) => {},
                            Ok(pat) => lemma_comp_setters_same(cx1, cx2, el, k + 1,
                                set1 + " .with_"@ + name + "(move |__backend, "@ + pat + " | "@ + content1 + " )"@,
                                set2 + " .with_"@ + name + "(move |__backend, "@ + pat + " | "@ + content2 + " )"@, s1),
                        }
                    },
                    _ => {},
                }
            } else {
                lemma_comp_setters_same(cx1, cx2, el, k + 1, set1, set2, slots);
            },
            _ => lemma_comp_setters_same(cx1, cx2, el, k + 1, set1, set2, slots),
        }
    }
}

proof fn lemma_children_same(
    cx1: GenCtx,
    cx2: GenCtx,
    cs: Seq<NodeV>,
    i: int,
    ch1: Seq<char>,
    ch2: Seq<char>,
    slots: Slots,
)
    requires
        cx1.payloads == cx2.payloads,
    ensures
        same_outcome(children_code(cx1, cs, i, ch1, slots), children_code(cx2, cs, i, ch2, slots)),
    decreases cs, cs.len() - i + 1,
{
    if 0 <= i < cs.len() {
        match cs[i] {
            NodeV::StaticText(t) => lemma_children_same(cx1, cx2, cs, i + 1,
                ch1 + " .text("@ + crate::compiler::tokens::str_lit(t) + ")"@,
                ch2 + " .text("@ + crate::compiler::tokens::str_lit(t) + ")"@, slots),
            NodeV::DynText(e) => match crate::compiler::tokens::expr_code(e) {
                Err(_) => {},
                Ok(x) => lemma_children_same(cx1, cx2, cs, i + 1,
                    ch1 + " .dyn_text(move || ( "@ + x + " ).to_string())"@,
                    ch2 + " .dyn_text(move || ( "@ + x + " ).to_string())"@, slots),
            },
            NodeV::Element(el) => {
                assert(decreases_to!(cs => cs[i]));
                match crate::compiler::directives::static_attr(el, "v-for"@) {
                    Some(fe) => {
                        lemma_for_same(cx1, cx2, el, fe, slots);
                        match (for_code(cx1, el, fe, slots), for_code(cx2, el, fe, slots)) {
                            (Ok((p1, s1)), Ok((p2, _))) => lemma_children_same(cx1, cx2, cs, i + 1,
                                ch1 + " "@ + p1, ch2 + " "@ + p2, s1),
                            _ => {},
                        }
                    },
                    None => if crate::compiler::directives::static_attr(el, "v-if"@) is Some {
                        let j = crate::compiler::codegen::chain_end(cs, i + 1);
                        if i < j <= cs.len() {
                            let none = "::core::option::Option::None"@;
                            let e = Seq::<char>::empty();
                            lemma_if_chain_same(cx1, cx2, cs, i, j, i, e, e, e, e, none, none, slots);
                            match (if_chain_code(cx1, cs, i, j, i, e, e, none, slots), if_chain_code(cx2, cs, i, j, i, e, e, none, slots)) {
                                (Ok((p1, s1)), Ok((p2, _))) => lemma_children_same(cx1, cx2, cs, j,
                                    ch1 + " "@ + p1, ch2 + " "@ + p2, s1),
                                _ => {},
                            }
                        }
                    } else {
                        lemma_element_same(cx1, cx2, el, slots);
                        match (element_code(cx1, el, slots), element_code(cx2, el, slots)) {
                            (Ok((c1, s1)), Ok((c2, _))) => lemma_children_same(cx1, cx2, cs, i + 1,
                                ch1 + " .child( "@ + c1 + " )"@, ch2 + " .child( "@ + c2 + " )"@, s1),
                            _ => {},
                        }
                    },
                }
            },
        }
    }
}

proof fn lemma_if_chain_same(
    cx1: GenCtx,
    cx2: GenCtx,
    cs: Seq<NodeV>,
    i: int,
    j: int,
    k: int,
    sel1: Seq<char>,
    sel2: Seq<char>,
    pushes1: Seq<char>,
    pushes2: Seq<char>,
    tail1: Seq<char>,
    tail2: Seq<char>,
    slots: Slots,
)
    requires
        cx1.payloads == cx2.payloads,
    ensures
        same_outcome(
            if_chain_code(cx1, cs, i, j, k, sel1, pushes1, tail1, slots),
            if_chain_code(cx2, cs, i, j, k, sel2, pushes2, tail2, slots),
        ),
    decreases cs, cs.len() - k,
{
    if 0 <= k < j && k < cs.len() {
        match cs[k] {
            NodeV::Element(el) => {
                assert(decreases_to!(cs => cs[k]));
                lemma_element_same(cx1, cx2, el, slots);
                match (element_code(cx1, el, slots), element_code(cx2, el, slots)) {
                    (Ok((view1, s1)), Ok((view2, _))) => {
                        let push1 = "__views.push(::std::boxed::Box::new(move |__backend| "@ + view1 + " )); "@;
                        let push2 = "__views.push(::std::boxed::Box::new(move |__backend| "@ + view2 + " )); "@;
                        let idx = crate::compiler::tokens::usize_lit((k - i) as usize);
                        match crate::compiler::codegen::arm_cond(cs, i, k) {
                            Some(c) => match crate::compiler::tokens::expr_code(c) {
                                Err(_) => {},
                                Ok(x) => {
                                    lemma_if_chain_same(cx1, cx2, cs, i, j, k + 1,
                                        sel1 + "if ( "@ + x + " ) { return ::core::option::Option::Some("@ + idx + "); } "@,
                                        sel2 + "if ( "@ + x + " ) { return ::core::option::Option::Some("@ + idx + "); } "@,
                                        pushes1 + push1, pushes2 + push2, tail1, tail2, s1);
                                },
                            },
                            None => {
                                let t = "::core::option::Option::Some("@ + idx + ")"@;
                                lemma_if_chain_same(cx1, cx2, cs, i, j, k + 1, sel1, sel2, pushes1 + push1,
                                    pushes2 + push2, t, t, s1);
                            },
                        }
                    },
                    _ => {},
                }
            },
            _ => {},
        }
    }
}

proof fn lemma_for_same(cx1: GenCtx, cx2: GenCtx, el: ElementV, fe: Seq<char>, slots: Slots)
    requires
        cx1.payloads == cx2.payloads,
    ensures
        same_outcome(for_code(cx1, el, fe, slots), for_code(cx2, el, fe, slots)),
    decreases el, el.children.len() + 6,
{
    lemma_element_same(cx1, cx2, el, slots);
}

proof fn lemma_members_same(
    cx1: GenCtx,
    cx2: GenCtx,
    nodes: Seq<NodeV>,
    k: int,
    acc1: Seq<Seq<char>>,
    acc2: Seq<Seq<char>>,
    slots: Slots,
)
    requires
        cx1.payloads == cx2.payloads,
    ensures
        same_outcome(members_code(cx1, nodes, k, acc1, slots), members_code(cx2, nodes, k, acc2, slots)),
    decreases nodes.len() - k,
{
    if 0 <= k < nodes.len() {
        match nodes[k] {
            NodeV::StaticText(t) => {
                let m = "::vue_rs_dom::Backend::create_text(&__backend, "@ + crate::compiler::tokens::str_lit(t) + ")"@;
                lemma_members_same(cx1, cx2, nodes, k + 1, acc1.push(m), acc2.push(m), slots);
            },
            NodeV::DynText(e) => match crate::compiler::tokens::expr_code(e) {
                Err(_) => {},
                Ok(x) => {
                    let m = "::vue_rs_dom::dyn_text_node(&__backend, move || ( "@ + x + " ).to_string())"@;
                    lemma_members_same(cx1, cx2, nodes, k + 1, acc1.push(m), acc2.push(m), slots);
                },
            },
            NodeV::Element(el) => {
                lemma_element_same(cx1, cx2, el, slots);
                match (element_code(cx1, el, slots), element_code(cx2, el, slots)) {
                    (Ok((t1, s1)), Ok((t2, _))) => lemma_members_same(cx1, cx2, nodes, k + 1, acc1.push(t1),
                        acc2.push(t2), s1),
                    _ => {},
                }
            },
        }
    }
}

/// A scope only adds marker attributes: lowering a template with one scope or
/// another (or none), and the same scoped-slot payloads, either succeeds both
/// times with the same slots, or stops both times with the same error.
pub proof fn law_scope_only_marks(template: Seq<char>, cx1: GenCtx, cx2: GenCtx)
    requires
        cx1.payloads == cx2.payloads,
    ensures
        same_outcome(template_code(template, cx1), template_code(template, cx2)),
{
    match spec_parse(template) {
        Err(_) => {},
        Ok(nodes) => {
            if nodes.len() == 1 && nodes[0] is Element {
                lemma_element_same(cx1, cx2, nodes[0]->Element_0, seq![]);
            } else {
                lemma_members_same(cx1, cx2, nodes, 0, seq![], seq![], seq![]);
            }
        },
    }
}

// --- which attributes and modifiers are refused --------------------------------

/// A bind modifier the generator knows: `.prop`, `.attr` or `.camel`.
pub open spec fn known_bind_mod(m: Seq<char>) -> bool {
    m == "prop"@ || m == "attr"@ || m == "camel"@
}

/// `bind_mods` fails exactly on an unknown modifier, and sets a flag exactly
/// when it was already set or its modifier occurs.
proof fn lemma_bind_mods(mods: Seq<Seq<char>>, k: int, name: Seq<char>, p: bool, a: bool, c: bool)
    requires
        0 <= k <= mods.len(),
    ensures
        crate::compiler::codegen::bind_mods(mods, k, name, p, a, c) is Err
            <==> exists|j: int| k <= j < mods.len() && !known_bind_mod(#[trigger] mods[j]),
        crate::compiler::codegen::bind_mods(mods, k, name, p, a, c) matches Ok((p2, a2, c2)) ==> {
            &&& p2 == (p || exists|j: int| k <= j < mods.len() && #[trigger] mods[j] == "prop"@)
            &&& a2 == (a || exists|j: int| k <= j < mods.len() && #[trigger] mods[j] == "attr"@)
        },
    decreases mods.len() - k,
{
    reveal_strlit("prop");
    reveal_strlit("attr");
    reveal_strlit("camel");
    assert("prop"@ != "attr"@) by { assert("prop"@[0] != "attr"@[0]); }
    if k < mods.len() {
        let m = mods[k];
        if m == "prop"@ {
            lemma_bind_mods(mods, k + 1, name, true, a, c);
        } else if m == "attr"@ {
            lemma_bind_mods(mods, k + 1, name, p, true, c);
        } else if m == "camel"@ {
            lemma_bind_mods(mods, k + 1, name, p, a, true);
        }
        if known_bind_mod(m) {
            let r = crate::compiler::codegen::bind_mods(mods, k, name, p, a, c);
            assert((exists|j: int| k <= j < mods.len() && !known_bind_mod(#[trigger] mods[j]))
                == (exists|j: int| k + 1 <= j < mods.len() && !known_bind_mod(#[trigger] mods[j])));
            if r is Ok {
                assert((exists|j: int| k <= j < mods.len() && #[trigger] mods[j] == "prop"@)
                    == (m == "prop"@ || exists|j: int| k + 1 <= j < mods.len() && #[trigger] mods[j] == "prop"@));
                assert((exists|j: int| k <= j < mods.len() && #[trigger] mods[j] == "attr"@)
                    == (m == "attr"@ || exists|j: int| k + 1 <= j < mods.len() && #[trigger] mods[j] == "attr"@));
            }
        }
    }
}

/// A bound attribute `:name.mods="expr"` whose expression parses is refused
/// exactly when one of its modifiers is not `.prop`, `.attr` or `.camel`, or
/// it carries both `.prop` and `.attr`.
pub proof fn law_bind_modifiers_refused(name: Seq<char>, expr: Seq<char>)
    requires
        crate::compiler::scan::spec_dynamic_arg(name) is None,
        crate::compiler::tokens::expr_code(expr) is Ok,
    ensures
        ({
            let mods = crate::text::split_seq(name, '.');
            crate::compiler::codegen::bind_code(name, expr) is Err <==> {
                ||| exists|j: int| 1 <= j < mods.len() && !known_bind_mod(#[trigger] mods[j])
                ||| ((exists|j: int| 1 <= j < mods.len() && #[trigger] mods[j] == "prop"@)
                    && (exists|j: int| 1 <= j < mods.len() && #[trigger] mods[j] == "attr"@))
            }
        }),
{
    let mods = crate::text::split_seq(name, '.');
    crate::text::lemma_split_nonempty(name, '.');
    lemma_bind_mods(mods, 1, name, false, false, false);
}

/// An event modifier the generator accepts on `event`: a flag modifier, a
/// mouse button on a mouse event, or a key on a keyboard event.
pub open spec fn known_event_mod(event: Seq<char>, m: Seq<char>) -> bool {
    ||| crate::compiler::directives::flag_field(m) is Some
    ||| (crate::compiler::directives::mouse_event(event) && crate::compiler::directives::button_of(m) is Some)
    ||| (crate::compiler::directives::keyboard_event(event) && crate::compiler::directives::key_of(m) is Some)
}

/// `opts_code` fails exactly on a modifier it does not know.
proof fn lemma_opts_code(
    event: Seq<char>,
    mods: Seq<Seq<char>>,
    full: Seq<char>,
    k: int,
    fields: Seq<char>,
    keys: Seq<Seq<char>>,
    buttons: Seq<Seq<char>>,
)
    requires
        0 <= k <= mods.len(),
    ensures
        crate::compiler::codegen::opts_code(event, mods, full, k, fields, keys, buttons) is Err
            <==> exists|j: int| k <= j < mods.len() && !known_event_mod(event, #[trigger] mods[j]),
    decreases mods.len() - k,
{
    if k < mods.len() {
        let m = mods[k];
        match crate::compiler::directives::flag_field(m) {
            Some(f) => lemma_opts_code(event, mods, full, k + 1, fields + f + ", "@, keys, buttons),
            None => if crate::compiler::directives::mouse_event(event) && crate::compiler::directives::button_of(m) is Some {
                lemma_opts_code(event, mods, full, k + 1, fields, keys,
                    buttons.push(crate::compiler::tokens::u16_lit(crate::compiler::directives::button_of(m)->0)));
            } else if crate::compiler::directives::keyboard_event(event) && crate::compiler::directives::key_of(m) is Some {
                lemma_opts_code(event, mods, full, k + 1, fields,
                    keys.push(crate::compiler::tokens::str_lit(crate::compiler::directives::key_of(m)->0)), buttons);
            } else {
            },
        }
        assert((exists|j: int| k <= j < mods.len() && !known_event_mod(event, #[trigger] mods[j]))
            == (!known_event_mod(event, m) || exists|j: int| k + 1 <= j < mods.len() && !known_event_mod(event, #[trigger] mods[j])));
    }
}

/// Building the options of a listener for `event` with modifiers `mods`
/// (what `build_event_options` computes) fails exactly when one of the
/// modifiers is neither a flag modifier (`.prevent`, `.stop`, `.once`,
/// `.capture`, `.passive`, `.self`, the system modifiers, `.exact`), nor a
/// mouse button on a mouse event, nor a key on a keyboard event.
pub proof fn law_event_options_refuse_unknown_modifiers(event: Seq<char>, mods: Seq<Seq<char>>, full: Seq<char>)
    ensures
        crate::compiler::codegen::opts_code(event, mods, full, 0, Seq::<char>::empty(), seq![], seq![]) is Err
            <==> exists|j: int| 0 <= j < mods.len() && !known_event_mod(event, #[trigger] mods[j]),
{
    lemma_opts_code(event, mods, full, 0, Seq::<char>::empty(), seq![], seq![]);
}

/// An event listener `@event.mods="handler"` whose handler parses is refused
/// exactly when one of its modifiers is neither a flag modifier (`.prevent`,
/// `.stop`, `.once`, `.capture`, `.passive`, `.self`, the system modifiers,
/// `.exact`), nor a mouse button on a mouse event, nor a key on a keyboard
/// event.
pub proof fn law_event_modifiers_refused(name: Seq<char>, handler: Seq<char>)
    requires
        crate::compiler::scan::spec_dynamic_arg(name) is None,
        crate::compiler::tokens::expr_code(handler) is Ok,
    ensures
        ({
            let parts = crate::text::split_seq(name, '.');
            crate::compiler::codegen::event_code(name, handler) is Err
                <==> exists|j: int| 1 <= j < parts.len() && !known_event_mod(parts[0], #[trigger] parts[j])
        }),
{
    let parts = crate::text::split_seq(name, '.');
    crate::text::lemma_split_nonempty(name, '.');
    if parts.len() > 1 {
        let mods = parts.drop_first();
        lemma_opts_code(parts[0], mods, name, 0, Seq::<char>::empty(), seq![], seq![]);
        assert((exists|j: int| 1 <= j < parts.len() && !known_event_mod(parts[0], #[trigger] parts[j]))
            == (exists|j: int| 0 <= j < mods.len() && !known_event_mod(parts[0], #[trigger] mods[j]))) by {
            if exists|j: int| 1 <= j < parts.len() && !known_event_mod(parts[0], #[trigger] parts[j]) {
                let j = choose|j: int| 1 <= j < parts.len() && !known_event_mod(parts[0], #[trigger] parts[j]);
                assert(mods[j - 1] == parts[j]);
            }
            if exists|j: int| 0 <= j < mods.len() && !known_event_mod(parts[0], #[trigger] mods[j]) {
                let j = choose|j: int| 0 <= j < mods.len() && !known_event_mod(parts[0], #[trigger] mods[j]);
                assert(mods[j] == parts[j + 1]);
            }
        }
    }
}

/// An attribute a component refuses: a template `ref`, or a bound attribute
/// or event listener with a dynamic argument.
pub open spec fn refused_on_component(a: crate::compiler::ast::AttrV) -> bool {
    match a {
        crate::compiler::ast::AttrV::Static { name, .. } => name == "ref"@,
        crate::compiler::ast::AttrV::Dyn { name, .. } => crate::compiler::scan::spec_dynamic_arg(name) is Some,
        crate::compiler::ast::AttrV::Event { name, .. } => crate::compiler::scan::spec_dynamic_arg(name) is Some,
    }
}

proof fn lemma_comp_fields_refuses(attrs: Seq<crate::compiler::ast::AttrV>, k: int, acc: Seq<Seq<char>>, bad: int)
    requires
        0 <= k <= bad < attrs.len(),
        refused_on_component(attrs[bad]),
    ensures
        crate::compiler::codegen::comp_fields(attrs, k, acc) is Err,
    decreases attrs.len() - k,
{
    reveal_strlit("ref");
    reveal_strlit("key");
    reveal_strlit("v-if");
    reveal_strlit("v-else-if");
    reveal_strlit("v-else");
    reveal_strlit("v-for");
    reveal_strlit("v-model");
    reveal_strlit("v-model:");
    reveal_strlit("v-model.");
    let a = attrs[k];
    if k == bad {
        match a {
            crate::compiler::ast::AttrV::Static { name, .. } => {
                assert(name.len() == 3);
                assert(!crate::compiler::directives::structural(a));
                assert(!crate::compiler::directives::component_v_model(name));
            },
            crate::compiler::ast::AttrV::Dyn { name, .. } => {
                assert(name[0] == '[');
                assert(name != "key"@);
            },
            _ => {},
        }
    } else {
        match a {
            crate::compiler::ast::AttrV::Dyn { name, expr } => match crate::compiler::tokens::expr_code(expr) {
                Ok(x) => lemma_comp_fields_refuses(attrs, k + 1,
                    acc.push(name + ": ::core::convert::Into::into( "@ + x + " )"@), bad),
                Err(_) => {},
            },
            crate::compiler::ast::AttrV::Event { name, handler } => match crate::compiler::tokens::expr_code(handler) {
                Ok(x) => lemma_comp_fields_refuses(attrs, k + 1,
                    acc.push("on_"@ + name + ": ::vue_rs_dom::Callback::new( "@ + x + " )"@), bad),
                Err(_) => {},
            },
            crate::compiler::ast::AttrV::Static { name, value } => {
                match crate::compiler::codegen::model_fields(name) {
                    Ok((vf, uf)) => match crate::compiler::tokens::expr_code(value) {
                        Ok(x) => lemma_comp_fields_refuses(attrs, k + 1,
                            acc.push(vf + ": ::core::convert::Into::into( "@ + x + " )"@).push(
                                uf + ": ::vue_rs_dom::Callback::new(move |__v| ( "@ + x + " ).set(__v))"@), bad),
                        Err(_) => {},
                    },
                    Err(_) => {},
                }
                lemma_comp_fields_refuses(attrs, k + 1, acc.push(name + ": "@ + crate::compiler::tokens::str_lit(value)), bad);
            },
        }
        lemma_comp_fields_refuses(attrs, k + 1, acc, bad);
    }
}

/// A component refuses a template `ref` and any dynamic argument: lowering a
/// component element that carries one always stops with an error.
pub proof fn law_component_refuses_ref_and_dynamic_args(cx: GenCtx, el: ElementV, slots: Slots, bad: int)
    requires
        crate::compiler::directives::component_tag(el.tag),
        0 <= bad < el.attrs.len(),
        refused_on_component(el.attrs[bad]),
    ensures
        element_code(cx, el, slots) is Err,
{
    reveal_strlit("slot");
    assert(el.tag != "slot"@);
    lemma_comp_fields_refuses(el.attrs, 0, seq![], bad);
}

} // verus!
