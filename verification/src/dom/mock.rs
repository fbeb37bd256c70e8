//! An in-memory DOM tree for testing. Nodes are addressed by `usize` handles.
use vstd::prelude::*;
use crate::dom::backend::{
    insert_before_seq, listener_other_than, other_name, other_than, pair_index, remove_pair, set_pair, Backend,
    DomNode,
};
use crate::dom::event::EventOptions;
use crate::text::{chars_eq, chars_of, concat, lemma_filter_take_step, string_of};

verus! {

/// What dispatching an event requested via its listeners' modifiers. Returned by
/// [`MockDom::dispatch`] so tests can assert `.prevent` / `.stop` wiring without a
/// real event object.
#[derive(Clone, Copy, Default, Debug, PartialEq, Eq)]
pub struct DispatchOutcome {
    /// A matched listener (whose guards passed) was registered with `prevent_default`.
    pub default_prevented: bool,
    /// A matched listener (whose guards passed) was registered with `stop_propagation`.
    pub propagation_stopped: bool,
}

/// Simulated event data for [`MockDom::dispatch_event`], standing in for the
/// fields a real DOM event would carry. Used to exercise the guard modifiers
/// (`.self` / key / mouse-button / system modifiers) without a browser.
#[derive(Clone, Default, Debug)]
pub struct MockEvent {
    /// `event.key` (key modifiers). `None` means the event carries no key.
    pub key: Option<String>,
    /// `event.button` (mouse-button modifiers). `None` means no button.
    pub button: Option<u16>,
    /// The node the event originated on (`event.target`). `None` means the event
    /// targeted the dispatched node itself, so `.self` passes.
    pub target: Option<usize>,
    /// `event.ctrlKey`: the Control key is held.
    pub ctrl: bool,
    /// `event.altKey`: the Alt key is held.
    pub alt: bool,
    /// `event.shiftKey`: the Shift key is held.
    pub shift: bool,
    /// `event.metaKey`: the Meta key is held.
    pub meta: bool,
}

/// A registered listener: a unique id (for removal), its event name, modifiers,
/// and handler.
pub struct Listener<H> {
    pub id: usize,
    pub event: String,
    pub options: EventOptions,
    pub handler: H,
}

/// One node of the mock tree.
pub enum NodeData<H> {
    Element {
        tag: String,
        attrs: Vec<(String, String)>,
        props: Vec<(String, String)>,
        children: Vec<usize>,
        listeners: Vec<Listener<H>>,
        /// Raw markup set via `set_inner_html` (the `v-html` directive). When
        /// present it is serialized verbatim in place of `children`.
        inner_html: Option<String>,
    },
    Text { data: String },
    /// An invisible placeholder used to position dynamic content.
    Anchor,
}

/// The views of `(name, value)` string pairs.
pub open spec fn pairs_view(v: Seq<(String, String)>) -> Seq<(Seq<char>, Seq<char>)> {
    v.map_values(|p: (String, String)| (p.0@, p.1@))
}

/// The views of listeners: id, event name and modifiers.
pub open spec fn listeners_view<H>(v: Seq<Listener<H>>) -> Seq<(usize, Seq<char>, EventOptions, H)> {
    v.map_values(|l: Listener<H>| (l.id, l.event@, l.options, l.handler))
}

/// The view of an optional string.
pub open spec fn opt_str_view(o: Option<String>) -> Option<Seq<char>> {
    match o {
        Some(s) => Some(s@),
        None => None,
    }
}

/// The listener entries of a node: an element's, none for other nodes.
pub open spec fn listeners_at<N, L, H>(d: DomNode<N, L, H>) -> Seq<(L, Seq<char>, EventOptions, H)> {
    match d {
        DomNode::Element { listeners, .. } => listeners,
        _ => Seq::empty(),
    }
}

/// The handles of the listener entries `ls` are all below `next`, and no two
/// entries share one.
pub open spec fn listener_ids_below<H>(ls: Seq<(usize, Seq<char>, EventOptions, H)>, next: usize) -> bool {
    &&& forall|i: int| 0 <= i < ls.len() ==> (#[trigger] ls[i]).0 < next
    &&& forall|i: int, j: int| 0 <= i < j < ls.len() ==> (#[trigger] ls[i]).0 != (#[trigger] ls[j]).0
}

/// Keeping some of the entries keeps their handles below `next` and apart.
proof fn lemma_ids_below_filter<H>(
    ls: Seq<(usize, Seq<char>, EventOptions, H)>,
    next: usize,
    p: spec_fn((usize, Seq<char>, EventOptions, H)) -> bool,
)
    requires
        listener_ids_below(ls, next),
    ensures
        listener_ids_below(ls.filter(p), next),
    decreases ls.len(),
{
    broadcast use vstd::seq_lib::group_filter_ensures;
    if ls.len() > 0 {
        let init = ls.drop_last();
        let last = ls.last();
        assert(listener_ids_below(init, next)) by {
            assert forall|i: int, j: int| 0 <= i < j < init.len() implies (#[trigger] init[i]).0 != (#[trigger] init[j]).0 by {
                assert(init[i] == ls[i] && init[j] == ls[j]);
            }
            assert forall|i: int| 0 <= i < init.len() implies (#[trigger] init[i]).0 < next by {
                assert(init[i] == ls[i]);
            }
        }
        lemma_ids_below_filter(init, next, p);
        assert(ls =~= init.push(last));
        init.lemma_filter_push(last, p);
        let f = init.filter(p);
        if p(last) {
            let g = f.push(last);
            assert forall|i: int, j: int| 0 <= i < j < g.len() implies (#[trigger] g[i]).0 != (#[trigger] g[j]).0 by {
                if j == g.len() - 1 {
                    assert(g[i] == f[i]);
                    assert(f.contains(f[i]));
                    init.lemma_filter_contains_rev(p, f[i]);
                    let k = choose|k: int| 0 <= k < init.len() && init[k] == f[i];
                    assert(init[k] == ls[k]);
                    assert(ls[k].0 != ls[ls.len() - 1].0);
                } else {
                    assert(g[i] == f[i] && g[j] == f[j]);
                }
            }
            assert forall|i: int| 0 <= i < g.len() implies (#[trigger] g[i]).0 < next by {
                if i < f.len() {
                    assert(g[i] == f[i]);
                } else {
                    assert(ls[ls.len() - 1].0 < next);
                }
            }
        }
    }
}

/// Filters that agree on every entry of `s` keep the same entries.
proof fn lemma_filter_agree<A>(s: Seq<A>, p: spec_fn(A) -> bool, q: spec_fn(A) -> bool)
    requires
        forall|i: int| 0 <= i < s.len() ==> p(#[trigger] s[i]) == q(s[i]),
    ensures
        s.filter(p) == s.filter(q),
    decreases s.len(),
{
    if s.len() > 0 {
        let init = s.drop_last();
        assert forall|i: int| 0 <= i < init.len() implies p(#[trigger] init[i]) == q(init[i]) by {
            assert(init[i] == s[i]);
        }
        lemma_filter_agree(init, p, q);
        assert(s =~= init.push(s.last()));
        init.lemma_filter_push(s.last(), p);
        init.lemma_filter_push(s.last(), q);
        assert(p(s[s.len() - 1]) == q(s[s.len() - 1]));
    }
}

/// The view of one node.
pub open spec fn data_view<H>(d: NodeData<H>) -> DomNode<usize, usize, H> {
    match d {
        NodeData::Element { tag, attrs, props, children, listeners, inner_html } => DomNode::Element {
            tag: tag@,
            attrs: pairs_view(attrs@),
            props: pairs_view(props@),
            children: children@,
            inner_html: opt_str_view(inner_html),
            listeners: listeners_view(listeners@),
        },
        NodeData::Text { data } => DomNode::Text { data: data@ },
        NodeData::Anchor => DomNode::Anchor,
    }
}

/// An in-memory DOM tree for testing. Nodes are addressed by `usize` handles;
/// `H` is the type of the event handlers it holds.
pub struct MockDom<H> {
    nodes: Vec<NodeData<H>>,
    /// Source of unique ids handed to each registered listener.
    next_listener_id: usize,
}

impl<H> MockDom<H> {
    /// The number of nodes created so far.
    pub closed spec fn len(&self) -> nat {
        self.nodes@.len()
    }

    /// What node `n` holds.
    pub closed spec fn node_at(&self, n: usize) -> DomNode<usize, usize, H> {
        if n < self.nodes@.len() { data_view(self.nodes@[n as int]) } else { DomNode::Absent }
    }

    /// The listener handle the next registration hands out.
    pub closed spec fn next_handle(&self) -> usize {
        self.next_listener_id
    }

    /// Every listener handle registered in the tree is below the next handle
    /// to be handed out, and no two listeners of one node share a handle.
    pub open spec fn handles_fresh(&self) -> bool {
        forall|m: usize| listener_ids_below(#[trigger] listeners_at(self.node_at(m)), self.next_handle())
    }

    /// A step that keeps every node's listeners and the next handle keeps the
    /// handles fresh.
    proof fn lemma_keeps_fresh(before: Self, after: Self)
        requires
            before.handles_fresh(),
            after.next_handle() == before.next_handle(),
            forall|m: usize| #[trigger] listeners_at(after.node_at(m)) == listeners_at(before.node_at(m)),
        ensures
            after.handles_fresh(),
    {
        assert forall|m: usize| listener_ids_below(#[trigger] listeners_at(after.node_at(m)), after.next_handle()) by {
            assert(listeners_at(after.node_at(m)) == listeners_at(before.node_at(m)));
        }
    }

    pub fn new() -> (r: Self)
        ensures
            r.len() == 0,
            forall|n: usize| r.node_at(n) is Absent,
            r.next_handle() == 0,
            r.handles_fresh(),
    {
        MockDom { nodes: Vec::new(), next_listener_id: 0 }
    }

    fn push(&mut self, data: NodeData<H>) -> (n: usize)
        ensures
            n == old(self).nodes@.len(),
            final(self).nodes@ == old(self).nodes@.push(data),
            final(self).next_listener_id == old(self).next_listener_id,
    {
        let n = self.nodes.len();
        self.nodes.push(data);
        n
    }
}


/// Set `name` to `value` in a pair list: an existing entry keeps its place.
fn set_pair_vec(v: &mut Vec<(String, String)>, name: &str, value: &str)
    ensures
        pairs_view(final(v)@) == set_pair(pairs_view(old(v)@), name@, value@),
{
    let key = chars_of(name);
    let mut i: usize = 0;
    while i < v.len()
        invariant
            i <= v@.len(),
            v@ == old(v)@,
            key@ == name@,
            pair_index(pairs_view(v@), name@, 0) == pair_index(pairs_view(v@), name@, i as int),
        decreases v@.len() - i,
    {
        if chars_eq(&chars_of(v[i].0.as_str()), &key) {
            let ghost before = v@;
            v.set(i, (String::from_str(name), String::from_str(value)));
            assert(pairs_view(v@) =~= pairs_view(before).update(i as int, (name@, value@)));
            return;
        }
        i += 1;
    }
    let ghost before = v@;
    v.push((String::from_str(name), String::from_str(value)));
    assert(pairs_view(v@) =~= pairs_view(before).push((name@, value@)));
}

impl<H> Backend for MockDom<H> {
    type Node = usize;
    type Listener = usize;
    type Handler = H;

    open spec fn node(&self, n: usize) -> DomNode<usize, usize, H> {
        self.node_at(n)
    }

    fn create_element(&mut self, tag: &str) -> (n: usize)
        ensures
            final(self).next_handle() == old(self).next_handle(),
            old(self).handles_fresh() ==> final(self).handles_fresh(),
    {
        let ghost before = *self;
        let attrs: Vec<(String, String)> = Vec::new();
        let props: Vec<(String, String)> = Vec::new();
        let listeners: Vec<Listener<H>> = Vec::new();
        assert(pairs_view(attrs@) =~= Seq::<(Seq<char>, Seq<char>)>::empty());
        assert(pairs_view(props@) =~= Seq::<(Seq<char>, Seq<char>)>::empty());
        assert(listeners_view(listeners@) =~= Seq::<(usize, Seq<char>, EventOptions, H)>::empty());
        let n = self.push(NodeData::Element {
            tag: String::from_str(tag),
            attrs,
            props,
            children: Vec::new(),
            listeners,
            inner_html: None,
        });
        proof {
            assert forall|m: usize| #[trigger] listeners_at(self.node_at(m)) == listeners_at(before.node_at(m)) by {
                if m < before.nodes@.len() { assert(self.nodes@[m as int] == before.nodes@[m as int]); }
            }
            if before.handles_fresh() { Self::lemma_keeps_fresh(before, *self); }
        }
        n
    }

    fn create_text(&mut self, data: &str) -> (n: usize)
        ensures
            final(self).next_handle() == old(self).next_handle(),
            old(self).handles_fresh() ==> final(self).handles_fresh(),
    {
        let ghost before = *self;
        let n = self.push(NodeData::Text { data: String::from_str(data) });
        proof {
            assert forall|m: usize| #[trigger] listeners_at(self.node_at(m)) == listeners_at(before.node_at(m)) by {
                if m < before.nodes@.len() { assert(self.nodes@[m as int] == before.nodes@[m as int]); }
            }
            if before.handles_fresh() { Self::lemma_keeps_fresh(before, *self); }
        }
        n
    }

    fn create_anchor(&mut self) -> (n: usize)
        ensures
            final(self).next_handle() == old(self).next_handle(),
            old(self).handles_fresh() ==> final(self).handles_fresh(),
    {
        let ghost before = *self;
        let n = self.push(NodeData::Anchor);
        proof {
            assert forall|m: usize| #[trigger] listeners_at(self.node_at(m)) == listeners_at(before.node_at(m)) by {
                if m < before.nodes@.len() { assert(self.nodes@[m as int] == before.nodes@[m as int]); }
            }
            if before.handles_fresh() { Self::lemma_keeps_fresh(before, *self); }
        }
        n
    }

    fn set_text(&mut self, node: &usize, data: &str)
        ensures
            final(self).next_handle() == old(self).next_handle(),
            old(self).handles_fresh() ==> final(self).handles_fresh(),
    {
        let ghost before = *self;
        if let NodeData::Text { data: slot } = &mut self.nodes[*node] {
            *slot = String::from_str(data);
        }
        proof {
            assert forall|m: usize| #[trigger] listeners_at(self.node_at(m)) == listeners_at(before.node_at(m)) by {
                if m < before.nodes@.len() && m != *node { assert(self.nodes@[m as int] == before.nodes@[m as int]); }
            }
            if before.handles_fresh() { Self::lemma_keeps_fresh(before, *self); }
        }
    }

    fn set_attribute(&mut self, node: &usize, name: &str, value: &str)
        ensures
            final(self).next_handle() == old(self).next_handle(),
            old(self).handles_fresh() ==> final(self).handles_fresh(),
    {
        let ghost before = *self;
        if let NodeData::Element { attrs, .. } = &mut self.nodes[*node] {
            set_pair_vec(attrs, name, value);
        }
        proof {
            assert forall|m: usize| #[trigger] listeners_at(self.node_at(m)) == listeners_at(before.node_at(m)) by {
                if m < before.nodes@.len() && m != *node { assert(self.nodes@[m as int] == before.nodes@[m as int]); }
            }
            if before.handles_fresh() { Self::lemma_keeps_fresh(before, *self); }
        }
    }

    fn set_property(&mut self, node: &usize, name: &str, value: &str)
        ensures
            final(self).next_handle() == old(self).next_handle(),
            old(self).handles_fresh() ==> final(self).handles_fresh(),
    {
        let ghost before = *self;
        if let NodeData::Element { props, .. } = &mut self.nodes[*node] {
            set_pair_vec(props, name, value);
        }
        proof {
            assert forall|m: usize| #[trigger] listeners_at(self.node_at(m)) == listeners_at(before.node_at(m)) by {
                if m < before.nodes@.len() && m != *node { assert(self.nodes@[m as int] == before.nodes@[m as int]); }
            }
            if before.handles_fresh() { Self::lemma_keeps_fresh(before, *self); }
        }
    }

    fn set_bool_property(&mut self, node: &usize, name: &str, value: bool)
        ensures
            final(self).next_handle() == old(self).next_handle(),
            old(self).handles_fresh() ==> final(self).handles_fresh(),
    {
        let ghost before = *self;
        if let NodeData::Element { props, .. } = &mut self.nodes[*node] {
            let v = if value { "true" } else { "false" };
            set_pair_vec(props, name, v);
        }
        proof {
            assert forall|m: usize| #[trigger] listeners_at(self.node_at(m)) == listeners_at(before.node_at(m)) by {
                if m < before.nodes@.len() && m != *node { assert(self.nodes@[m as int] == before.nodes@[m as int]); }
            }
            if before.handles_fresh() { Self::lemma_keeps_fresh(before, *self); }
        }
    }

    fn remove_attribute(&mut self, node: &usize, name: &str)
        ensures
            final(self).next_handle() == old(self).next_handle(),
            old(self).handles_fresh() ==> final(self).handles_fresh(),
    {
        let ghost before = *self;
        if let NodeData::Element { attrs, .. } = &mut self.nodes[*node] {
            let kept = remove_pair_vec(attrs, name);
            *attrs = kept;
        }
        proof {
            assert forall|m: usize| #[trigger] listeners_at(self.node_at(m)) == listeners_at(before.node_at(m)) by {
                if m < before.nodes@.len() && m != *node { assert(self.nodes@[m as int] == before.nodes@[m as int]); }
            }
            if before.handles_fresh() { Self::lemma_keeps_fresh(before, *self); }
        }
    }

    fn set_inner_html(&mut self, node: &usize, html: &str)
        ensures
            final(self).next_handle() == old(self).next_handle(),
            old(self).handles_fresh() ==> final(self).handles_fresh(),
    {
        let ghost before = *self;
        if let NodeData::Element { inner_html, .. } = &mut self.nodes[*node] {
            *inner_html = Some(String::from_str(html));
        }
        proof {
            assert forall|m: usize| #[trigger] listeners_at(self.node_at(m)) == listeners_at(before.node_at(m)) by {
                if m < before.nodes@.len() && m != *node { assert(self.nodes@[m as int] == before.nodes@[m as int]); }
            }
            if before.handles_fresh() { Self::lemma_keeps_fresh(before, *self); }
        }
    }

    fn append_child(&mut self, parent: &usize, child: &usize)
        ensures
            final(self).next_handle() == old(self).next_handle(),
            old(self).handles_fresh() ==> final(self).handles_fresh(),
    {
        let ghost before = *self;
        if let NodeData::Element { children, .. } = &mut self.nodes[*parent] {
            children.push(*child);
        }
        proof {
            assert forall|m: usize| #[trigger] listeners_at(self.node_at(m)) == listeners_at(before.node_at(m)) by {
                if m < before.nodes@.len() && m != *parent { assert(self.nodes@[m as int] == before.nodes@[m as int]); }
            }
            if before.handles_fresh() { Self::lemma_keeps_fresh(before, *self); }
        }
    }

    fn insert_before(&mut self, parent: &usize, child: &usize, anchor: &usize)
        ensures
            final(self).next_handle() == old(self).next_handle(),
            old(self).handles_fresh() ==> final(self).handles_fresh(),
    {
        let ghost before = *self;
        if let NodeData::Element { children, .. } = &mut self.nodes[*parent] {
            // Mirror the DOM: inserting a node already in the tree moves it.
            let mut rest = without(children, *child);
            let at = position_of(&rest, *anchor);
            proof { rest@.index_of_first_ensures(*anchor); }
            rest.insert(at, *child);
            *children = rest;
        }
        proof {
            assert forall|m: usize| #[trigger] listeners_at(self.node_at(m)) == listeners_at(before.node_at(m)) by {
                if m < before.nodes@.len() && m != *parent { assert(self.nodes@[m as int] == before.nodes@[m as int]); }
            }
            if before.handles_fresh() { Self::lemma_keeps_fresh(before, *self); }
        }
    }

    fn remove_child(&mut self, parent: &usize, child: &usize)
        ensures
            final(self).next_handle() == old(self).next_handle(),
            old(self).handles_fresh() ==> final(self).handles_fresh(),
    {
        let ghost before = *self;
        if let NodeData::Element { children, .. } = &mut self.nodes[*parent] {
            let kept = without(children, *child);
            *children = kept;
        }
        proof {
            assert forall|m: usize| #[trigger] listeners_at(self.node_at(m)) == listeners_at(before.node_at(m)) by {
                if m < before.nodes@.len() && m != *parent { assert(self.nodes@[m as int] == before.nodes@[m as int]); }
            }
            if before.handles_fresh() { Self::lemma_keeps_fresh(before, *self); }
        }
    }

    fn add_event_listener(&mut self, node: &usize, event: &str, options: EventOptions, handler: H) -> (l: usize)
        ensures
            l == old(self).next_handle(),
            old(self).handles_fresh() ==> forall|m: usize, i: int|
                0 <= i < listeners_at(old(self).node_at(m)).len() ==> (#[trigger] listeners_at(old(self).node_at(m))[i]).0 != l,
            final(self).next_handle() == if old(self).next_handle() == usize::MAX { 0 } else { (old(self).next_handle() + 1) as usize },
            old(self).handles_fresh() && old(self).next_handle() < usize::MAX ==> final(self).handles_fresh(),
    {
        let ghost start = *self;
        let id = self.next_listener_id;
        self.next_listener_id = self.next_listener_id.wrapping_add(1);
        proof {
            if start.handles_fresh() {
                assert forall|m: usize, i: int| 0 <= i < listeners_at(start.node_at(m)).len()
                    implies (#[trigger] listeners_at(start.node_at(m))[i]).0 != id by {
                    assert(listener_ids_below(listeners_at(start.node_at(m)), id));
                }
            }
        }
        if let NodeData::Element { listeners, .. } = &mut self.nodes[*node] {
            let ghost before = listeners@;
            let ghost h = handler;
            let entry = Listener { id, event: String::from_str(event), options, handler };
            listeners.push(entry);
            assert(listeners_view(listeners@) =~= listeners_view(before).push((id, event@, options, h)));
        }
        proof {
            if start.handles_fresh() && id < usize::MAX {
                assert forall|m: usize| listener_ids_below(#[trigger] listeners_at(self.node_at(m)), self.next_handle()) by {
                    let ls0 = listeners_at(start.node_at(m));
                    assert(listener_ids_below(ls0, id));
                    if m < start.nodes@.len() && m != *node {
                        assert(self.nodes@[m as int] == start.nodes@[m as int]);
                    }
                    let ls1 = listeners_at(self.node_at(m));
                    if m == *node && start.node_at(m) is Element {
                        assert(ls1 == ls0.push((id, event@, options, ls1.last().3)));
                        assert forall|i: int, j: int| 0 <= i < j < ls1.len() implies (#[trigger] ls1[i]).0 != (#[trigger] ls1[j]).0 by {
                            if j < ls0.len() { assert(ls1[i] == ls0[i] && ls1[j] == ls0[j]); } else { assert(ls1[i] == ls0[i]); }
                        }
                        assert forall|i: int| 0 <= i < ls1.len() implies (#[trigger] ls1[i]).0 < self.next_handle() by {
                            if i < ls0.len() { assert(ls1[i] == ls0[i]); }
                        }
                    } else {
                        assert(ls1 == ls0);
                    }
                }
            }
        }
        id
    }

    fn remove_event_listener(&mut self, node: &usize, listener: usize)
        ensures
            final(self).next_handle() == old(self).next_handle(),
            old(self).handles_fresh() ==> final(self).handles_fresh(),
    {
        let ghost start = *self;
        if let NodeData::Element { listeners, .. } = &mut self.nodes[*node] {
            let mut taken: Vec<Listener<H>> = Vec::new();
            std::mem::swap(listeners, &mut taken);
            let ghost old_listeners = taken@;
            let ids = vec![listener];
            let kept = drop_listeners(taken, &ids);
            proof {
                assert forall|e: (usize, Seq<char>, EventOptions, H)| (!ids@.contains(e.0)) == (e.0 != listener) by {
                    if e.0 == listener { assert(ids@[0] == e.0); }
                }
                assert((|e: (usize, Seq<char>, EventOptions, H)| !ids@.contains(e.0)) =~= listener_other_than(listener));
            }
            *listeners = kept;
        }
        proof {
            if start.handles_fresh() {
                assert forall|m: usize| listener_ids_below(#[trigger] listeners_at(self.node_at(m)), self.next_handle()) by {
                    let ls0 = listeners_at(start.node_at(m));
                    assert(listener_ids_below(ls0, start.next_handle()));
                    if m < start.nodes@.len() && m != *node {
                        assert(self.nodes@[m as int] == start.nodes@[m as int]);
                    }
                    if m == *node && start.node_at(m) is Element {
                        lemma_ids_below_filter(ls0, start.next_handle(), listener_other_than(listener));
                    }
                }
            }
        }
    }
}

/// `v` without any pair named `name`.
fn remove_pair_vec(v: &Vec<(String, String)>, name: &str) -> (r: Vec<(String, String)>)
    ensures
        pairs_view(r@) == remove_pair(pairs_view(v@), name@),
{
    let key = chars_of(name);
    let ghost p = other_name(name@);
    let mut r: Vec<(String, String)> = Vec::new();
    let mut i: usize = 0;
    while i < v.len()
        invariant
            i <= v@.len(),
            key@ == name@,
            p == other_name(name@),
            pairs_view(r@) == pairs_view(v@).take(i as int).filter(p),
        decreases v@.len() - i,
    {
        proof { lemma_filter_take_step(pairs_view(v@), i as int, p); }
        if !chars_eq(&chars_of(v[i].0.as_str()), &key) {
            let ghost before = r@;
            r.push((v[i].0.clone(), v[i].1.clone()));
            assert(pairs_view(r@) =~= pairs_view(before).push(pairs_view(v@)[i as int]));
        }
        i += 1;
    }
    assert(pairs_view(v@).take(v@.len() as int) =~= pairs_view(v@));
    r
}

/// `v` without any occurrence of `x`.
fn without(v: &Vec<usize>, x: usize) -> (r: Vec<usize>)
    ensures
        r@ == v@.filter(other_than(x)),
{
    let ghost p = other_than(x);
    let mut r: Vec<usize> = Vec::new();
    let mut i: usize = 0;
    while i < v.len()
        invariant
            i <= v@.len(),
            p == other_than(x),
            r@ == v@.take(i as int).filter(p),
        decreases v@.len() - i,
    {
        proof { lemma_filter_take_step(v@, i as int, p); }
        if v[i] != x {
            r.push(v[i]);
        }
        i += 1;
    }
    assert(v@.take(v@.len() as int) =~= v@);
    r
}

/// The index of the first `x` in `v`, or `v.len()` when it does not occur.
fn position_of(v: &Vec<usize>, x: usize) -> (i: usize)
    ensures
        i == match v@.index_of_first(x) {
            Some(k) => k,
            None => v@.len() as int,
        },
{
    proof { v@.index_of_first_ensures(x); }
    let mut i: usize = 0;
    while i < v.len()
        invariant
            i <= v@.len(),
            forall|j: int| 0 <= j < i ==> v@[j] != x,
        decreases v@.len() - i,
    {
        if v[i] == x {
            proof {
                v@.index_of_first_ensures(x);
                assert(v@.contains(x));
                let k = v@.index_of_first(x)->Some_0;
                assert(v@[k] == x);
                if k < i { assert(v@[k] != x); }
                if i < k { assert(v@[i as int] != x); }
            }
            return i;
        }
        i += 1;
    }
    i
}

/// Whether `x` occurs in `v`.
fn contains_id(v: &Vec<usize>, x: usize) -> (b: bool)
    ensures
        b == v@.contains(x),
{
    let mut i: usize = 0;
    while i < v.len()
        invariant
            i <= v@.len(),
            forall|j: int| 0 <= j < i ==> v@[j] != x,
        decreases v@.len() - i,
    {
        if v[i] == x {
            return true;
        }
        i += 1;
    }
    false
}

/// The listeners of `v` whose id is not among `ids`, in order.
fn drop_listeners<H>(v: Vec<Listener<H>>, ids: &Vec<usize>) -> (r: Vec<Listener<H>>)
    ensures
        listeners_view(r@) == listeners_view(v@).filter(|e: (usize, Seq<char>, EventOptions, H)| !ids@.contains(e.0)),
{
    let ghost v0 = listeners_view(v@);
    let ghost p = |e: (usize, Seq<char>, EventOptions, H)| !ids@.contains(e.0);
    let n = v.len();
    let mut v = v;
    let mut r: Vec<Listener<H>> = Vec::new();
    let mut k: usize = 0;
    while k < n
        invariant
            k <= n == v0.len(),
            v@.len() == n - k,
            listeners_view(v@) == v0.skip(k as int),
            p == (|e: (usize, Seq<char>, EventOptions, H)| !ids@.contains(e.0)),
            listeners_view(r@) == v0.take(k as int).filter(p),
        decreases n - k,
    {
        proof { lemma_filter_take_step(v0, k as int, p); }
        let ghost vb = v@;
        let l = v.remove(0);
        assert(listeners_view(v@) =~= listeners_view(vb).drop_first());
        assert(v0[k as int] == (l.id, l.event@, l.options, l.handler)) by {
            assert(listeners_view(vb)[0] == v0.skip(k as int)[0]);
        }
        if !contains_id(ids, l.id) {
            let ghost before = r@;
            r.push(l);
            assert(listeners_view(r@) =~= listeners_view(before).push(v0[k as int]));
        }
        k += 1;
    }
    assert(v0.take(n as int) =~= v0);
    r
}


/// The escaped form of one character of text content: `&`, `<`, `>`.
pub open spec fn escape_text_char(c: char) -> Seq<char> {
    if c == '&' {
        "&amp;"@
    } else if c == '<' {
        "&lt;"@
    } else if c == '>' {
        "&gt;"@
    } else {
        seq![c]
    }
}

/// The escaped form of one character of a double-quoted attribute value: `&`, `"`.
pub open spec fn escape_attribute_char(c: char) -> Seq<char> {
    if c == '&' {
        "&amp;"@
    } else if c == '"' {
        "&quot;"@
    } else {
        seq![c]
    }
}

/// Text content with `&`, `<`, `>` escaped.
pub open spec fn escape_text_seq(s: Seq<char>) -> Seq<char>
    decreases s.len(),
{
    if s.len() == 0 {
        seq![]
    } else {
        escape_text_seq(s.drop_last()) + escape_text_char(s.last())
    }
}

/// An attribute value with `&`, `"` escaped.
pub open spec fn escape_attribute_seq(s: Seq<char>) -> Seq<char>
    decreases s.len(),
{
    if s.len() == 0 {
        seq![]
    } else {
        escape_attribute_seq(s.drop_last()) + escape_attribute_char(s.last())
    }
}

/// Escape each character of `s`, text (`attribute == false`) or attribute style.
fn escape(s: &str, attribute: bool) -> (r: String)
    ensures
        r@ == if attribute { escape_attribute_seq(s@) } else { escape_text_seq(s@) },
{
    let v = chars_of(s);
    let mut out: Vec<char> = Vec::new();
    let mut i: usize = 0;
    while i < v.len()
        invariant
            i <= v@.len(),
            v@ == s@,
            out@ == if attribute { escape_attribute_seq(v@.take(i as int)) } else { escape_text_seq(v@.take(i as int)) },
        decreases v@.len() - i,
    {
        let c = v[i];
        let piece = if c == '&' {
            chars_of("&amp;")
        } else if c == '<' && !attribute {
            chars_of("&lt;")
        } else if c == '>' && !attribute {
            chars_of("&gt;")
        } else if c == '"' && attribute {
            chars_of("&quot;")
        } else {
            let mut one = Vec::new();
            one.push(c);
            one
        };
        assert(v@.take(i + 1).drop_last() =~= v@.take(i as int));
        assert(v@.take(i + 1).last() == c);
        assert(piece@ =~= if attribute { escape_attribute_char(c) } else { escape_text_char(c) });
        out = concat(&out, &piece);
        i += 1;
    }
    assert(v@.take(v@.len() as int) =~= v@);
    string_of(&out)
}

/// Escape a text node's content: `&`, `<`, `>`.
fn escape_text(s: &str) -> (r: String)
    ensures
        r@ == escape_text_seq(s@),
{
    escape(s, false)
}

/// Escape a double-quoted attribute value: `&`, `"`.
fn escape_attribute(s: &str) -> (r: String)
    ensures
        r@ == escape_attribute_seq(s@),
{
    escape(s, true)
}


/// The serialized attributes: ` name="value"` for each, values escaped.
pub open spec fn attrs_html(attrs: Seq<(Seq<char>, Seq<char>)>) -> Seq<char>
    decreases attrs.len(),
{
    if attrs.len() == 0 {
        seq![]
    } else {
        attrs_html(attrs.drop_last()) + seq![' '] + attrs.last().0 + seq!['=', '"']
            + escape_attribute_seq(attrs.last().1) + seq!['"']
    }
}

impl<H> MockDom<H> {
    /// Rendering `n` visits only nodes of this tree and ends within `fuel`
    /// levels: an element with raw inner HTML ends there, another element's
    /// children each render within one level less.
    pub open spec fn renders_within(&self, n: usize, fuel: nat) -> bool
        decreases fuel,
    {
        if fuel == 0 {
            false
        } else {
            match self.node_at(n) {
                DomNode::Absent => false,
                DomNode::Element { children, inner_html, .. } => inner_html is Some
                    || forall|i: int| 0 <= i < children.len() ==> self.renders_within(#[trigger] children[i], (fuel - 1) as nat),
                _ => true,
            }
        }
    }

    /// The serialization of node `n`, descending at most `fuel` levels:
    /// anchors render as nothing, text is escaped, an element renders its tag,
    /// its attributes (values escaped) and its raw inner HTML if set, else its
    /// children.
    pub open spec fn html_within(&self, n: usize, fuel: nat) -> Seq<char>
        decreases fuel, 0int,
    {
        if fuel == 0 {
            seq![]
        } else {
            match self.node_at(n) {
                DomNode::Text { data } => escape_text_seq(data),
                DomNode::Element { tag, attrs, children, inner_html, .. } =>
                    seq!['<'] + tag + attrs_html(attrs) + seq!['>']
                        + match inner_html {
                            Some(h) => h,
                            None => self.children_html(children, (fuel - 1) as nat),
                        }
                        + seq!['<', '/'] + tag + seq!['>'],
                _ => seq![],
            }
        }
    }

    /// The serializations of `cs`, concatenated.
    pub open spec fn children_html(&self, cs: Seq<usize>, fuel: nat) -> Seq<char>
        decreases fuel, cs.len() + 1,
    {
        if cs.len() == 0 {
            seq![]
        } else {
            self.children_html(cs.drop_last(), fuel) + self.html_within(cs.last(), fuel)
        }
    }

    /// More fuel changes nothing once a subtree renders.
    pub proof fn lemma_html_fuel(&self, n: usize, f: nat, g: nat)
        requires
            self.renders_within(n, f),
            f <= g,
        ensures
            self.renders_within(n, g),
            self.html_within(n, f) == self.html_within(n, g),
        decreases f, 0int,
    {
        match self.node_at(n) {
            DomNode::Element { children, inner_html, .. } => {
                if inner_html is None {
                    assert forall|i: int| 0 <= i < children.len() implies self.renders_within(
                        #[trigger] children[i],
                        (g - 1) as nat,
                    ) by {
                        self.lemma_html_fuel(children[i], (f - 1) as nat, (g - 1) as nat);
                    }
                    self.lemma_children_fuel(children, (f - 1) as nat, (g - 1) as nat);
                }
            },
            _ => {},
        }
    }

    /// More fuel changes nothing for children that render.
    proof fn lemma_children_fuel(&self, cs: Seq<usize>, f: nat, g: nat)
        requires
            forall|i: int| 0 <= i < cs.len() ==> self.renders_within(#[trigger] cs[i], f),
            f <= g,
        ensures
            self.children_html(cs, f) == self.children_html(cs, g),
        decreases f, cs.len() + 1,
    {
        if cs.len() > 0 {
            assert(self.renders_within(cs[cs.len() - 1], f));
            self.lemma_children_fuel(cs.drop_last(), f, g);
            self.lemma_html_fuel(cs.last(), f, g);
        }
    }

    fn html_rec(&self, node: usize, fuel: usize) -> (r: String)
        ensures
            r@ == self.html_within(node, fuel as nat),
        decreases fuel,
    {
        if fuel == 0 || node >= self.nodes.len() {
            return String::new();
        }
        match &self.nodes[node] {
            NodeData::Anchor => String::new(),
            NodeData::Text { data } => escape_text(data.as_str()),
            NodeData::Element { tag, attrs, children, inner_html, .. } => {
                let t = chars_of(tag.as_str());
                let mut out = concat(&['<'], &t);
                let mut i: usize = 0;
                assert(pairs_view(attrs@).take(0) =~= Seq::<(Seq<char>, Seq<char>)>::empty());
                while i < attrs.len()
                    invariant
                        i <= attrs@.len(),
                        out@ == seq!['<'] + tag@ + attrs_html(pairs_view(attrs@).take(i as int)),
                    decreases attrs@.len() - i,
                {
                    let name = chars_of(attrs[i].0.as_str());
                    let value = chars_of(escape_attribute(attrs[i].1.as_str()).as_str());
                    out = concat(&concat(&concat(&concat(&concat(&out, &[' ']), &name), &['=', '"']), &value), &['"']);
                    proof {
                        let pv = pairs_view(attrs@);
                        assert(pv.take(i + 1).drop_last() =~= pv.take(i as int));
                        assert(pv.take(i + 1).last() == pv[i as int]);
                    }
                    i += 1;
                }
                assert(pairs_view(attrs@).take(attrs@.len() as int) =~= pairs_view(attrs@));
                out = concat(&out, &['>']);
                match inner_html {
                    Some(h) => {
                        out = concat(&out, &chars_of(h.as_str()));
                    },
                    None => {
                        let mut k: usize = 0;
                        let ghost base = out@;
                        assert(children@.take(0) =~= Seq::<usize>::empty());
                        while k < children.len()
                            invariant
                                k <= children@.len(),
                                fuel > 0,
                                out@ == base + self.children_html(children@.take(k as int), (fuel - 1) as nat),
                            decreases children@.len() - k,
                        {
                            let c = children[k];
                            let part = self.html_rec(c, fuel - 1);
                            out = concat(&out, &chars_of(part.as_str()));
                            proof {
                                assert(children@.take(k + 1).drop_last() =~= children@.take(k as int));
                                assert(children@.take(k + 1).last() == c);
                            }
                            k += 1;
                        }
                        assert(children@.take(children@.len() as int) =~= children@);
                    },
                }
                out = concat(&concat(&concat(&out, &['<', '/']), &t), &['>']);
                string_of(&out)
            },
        }
    }

    /// Serialize the subtree rooted at `node` to an HTML-like string.
    /// Anchors render as nothing, so dynamic positioning stays invisible.
    /// Text content and attribute values are HTML-escaped, matching how the
    /// browser serializes nodes created via `create_text_node`/`set_attribute`.
    /// For a subtree that renders within some number of levels, the string is
    /// its serialization.
    pub fn to_html(&self, node: usize) -> (r: String)
        requires
            self.node_at(node) !is Absent,
        ensures
            forall|f: nat| f <= usize::MAX && #[trigger] self.renders_within(node, f) ==> r@ == self.html_within(node, f),
    {
        let r = self.html_rec(node, usize::MAX);
        proof {
            assert forall|f: nat| f <= usize::MAX && #[trigger] self.renders_within(node, f) implies r@
                == self.html_within(node, f) by {
                self.lemma_html_fuel(node, f, usize::MAX as nat);
            }
        }
        r
    }

    /// Node `n` is an element with tag `tag`.
    pub open spec fn has_tag(&self, n: usize, tag: Seq<char>) -> bool {
        self.node_at(n) matches DomNode::Element { tag: t, .. } && t == tag
    }

    /// Find the first element node (in creation order) with the given tag.
    pub fn find(&self, tag: &str) -> (r: Option<usize>)
        ensures
            match r {
                Some(i) => self.has_tag(i, tag@) && forall|j: usize| j < i ==> !#[trigger] self.has_tag(j, tag@),
                None => forall|j: usize| !#[trigger] self.has_tag(j, tag@),
            },
    {
        let want = chars_of(tag);
        let mut i: usize = 0;
        while i < self.nodes.len()
            invariant
                i <= self.nodes@.len(),
                want@ == tag@,
                forall|j: usize| j < i ==> !#[trigger] self.has_tag(j, tag@),
            decreases self.nodes@.len() - i,
        {
            if let NodeData::Element { tag: t, .. } = &self.nodes[i] {
                if chars_eq(&chars_of(t.as_str()), &want) {
                    return Some(i);
                }
            }
            i += 1;
        }
        None
    }
}


/// Whether the guard modifiers (system modifiers, `.self`, key, mouse button)
/// pass for a listener with options `opts` on `node`, for an event with the
/// given key, button and target and the held system modifiers `held`.
pub open spec fn guards_ok(
    opts: EventOptions,
    node: usize,
    key: Option<Seq<char>>,
    button: Option<u16>,
    target: Option<usize>,
    held: Seq<bool>,
) -> bool {
    &&& opts.spec_system_modifiers_pass(held)
    &&& !(opts.self_only && match target { Some(t) => t != node, None => false })
    &&& (opts.keys@.len() == 0 || (key matches Some(k) && exists|i: int| 0 <= i < opts.keys@.len() && (#[trigger] opts.keys@[i])@ == k))
    &&& (opts.buttons@.len() == 0 || (button matches Some(b) && opts.buttons@.contains(b)))
}

/// The system modifiers an event holds, in `[ctrl, alt, shift, meta]` order.
pub open spec fn held_of(ev: MockEvent) -> Seq<bool> {
    seq![ev.ctrl, ev.alt, ev.shift, ev.meta]
}

/// The view of an optional string.
pub open spec fn key_view(o: Option<String>) -> Option<Seq<char>> {
    match o {
        Some(s) => Some(s@),
        None => None,
    }
}

/// Whether the guard modifiers (`.self` / key / mouse-button) pass for a
/// listener on `node` given the simulated event `ev`.
fn guards_pass(opts: &EventOptions, node: usize, ev: &MockEvent) -> (b: bool)
    ensures
        b == guards_ok(*opts, node, key_view(ev.key), ev.button, ev.target, held_of(*ev)),
{
    let held = [ev.ctrl, ev.alt, ev.shift, ev.meta];
    assert(held@ =~= held_of(*ev));
    if !opts.system_modifiers_pass(held) {
        return false;
    }
    if opts.self_only {
        let t = match ev.target {
            Some(t) => t,
            None => node,
        };
        if t != node {
            return false;
        }
    }
    if opts.keys.len() > 0 {
        match &ev.key {
            None => return false,
            Some(k) => {
                let kc = chars_of(k.as_str());
                let mut i: usize = 0;
                let mut found = false;
                while i < opts.keys.len()
                    invariant
                        i <= opts.keys@.len(),
                        kc@ == k@,
                        found == exists|j: int| 0 <= j < i && (#[trigger] opts.keys@[j])@ == k@,
                    decreases opts.keys@.len() - i,
                {
                    if chars_eq(&chars_of(opts.keys[i]), &kc) {
                        found = true;
                    }
                    i += 1;
                }
                if !found {
                    return false;
                }
            },
        }
    }
    if opts.buttons.len() > 0 {
        match ev.button {
            None => return false,
            Some(b) => {
                let mut i: usize = 0;
                let mut found = false;
                while i < opts.buttons.len()
                    invariant
                        i <= opts.buttons@.len(),
                        found == exists|j: int| 0 <= j < i && opts.buttons@[j] == b,
                    decreases opts.buttons@.len() - i,
                {
                    if opts.buttons[i] == b {
                        found = true;
                    }
                    i += 1;
                }
                if !found {
                    return false;
                }
            },
        }
    }
    true
}

/// A listener entry is for `event` and was registered with `.once`.
pub open spec fn once_for<H>(event: Seq<char>) -> spec_fn((usize, Seq<char>, EventOptions, H)) -> bool {
    |e: (usize, Seq<char>, EventOptions, H)| e.1 == event && e.2.once
}

/// The ids of the `.once` listeners for `event`, which dispatching `event` detaches.
pub open spec fn spent_ids<H>(ls: Seq<(usize, Seq<char>, EventOptions, H)>, event: Seq<char>) -> Seq<usize> {
    ls.filter(once_for(event)).map_values(|e: (usize, Seq<char>, EventOptions, H)| e.0)
}

/// A `.once` listener does not outlive the first dispatch of its event: what
/// dispatching keeps holds no `.once` listener for that event, and every
/// listener whose handle is not among the spent ones is kept.
pub proof fn law_dispatch_spends_once<H>(ls: Seq<(usize, Seq<char>, EventOptions, H)>, event: Seq<char>)
    ensures
        ({
            let kept = ls.filter(|e: (usize, Seq<char>, EventOptions, H)| !spent_ids(ls, event).contains(e.0));
            &&& forall|i: int| 0 <= i < kept.len() ==> !(#[trigger] kept[i].1 == event && kept[i].2.once)
            &&& forall|i: int| 0 <= i < ls.len() && !spent_ids(ls, event).contains((#[trigger] ls[i]).0) ==> kept.contains(ls[i])
        }),
{
    broadcast use vstd::seq_lib::group_filter_ensures;
    let p = |e: (usize, Seq<char>, EventOptions, H)| !spent_ids(ls, event).contains(e.0);
    let kept = ls.filter(p);
    let once = ls.filter(once_for(event));
    assert forall|i: int| 0 <= i < kept.len() implies !(#[trigger] kept[i].1 == event && kept[i].2.once) by {
        let e = kept[i];
        assert(p(e));
        if e.1 == event && e.2.once {
            assert(kept.contains(e));
            ls.lemma_filter_contains_rev(p, e);
            let k = choose|k: int| 0 <= k < ls.len() && ls[k] == e;
            assert(once_for(event)(ls[k]));
            assert(once.contains(e));
            let j = choose|j: int| 0 <= j < once.len() && once[j] == e;
            assert(spent_ids(ls, event)[j] == e.0);
            assert(spent_ids(ls, event).contains(e.0));
        }
    }
    assert forall|i: int| 0 <= i < ls.len() && !spent_ids(ls, event).contains((#[trigger] ls[i]).0)
        implies kept.contains(ls[i]) by {
        assert(p(ls[i]));
    }
}

/// Keeps every listener entry other than a `.once` one for `event`.
pub open spec fn not_once_for<H>(event: Seq<char>) -> spec_fn((usize, Seq<char>, EventOptions, H)) -> bool {
    |e: (usize, Seq<char>, EventOptions, H)| !(e.1 == event && e.2.once)
}

/// When no two listeners share a handle, the listeners a dispatch keeps are
/// exactly those that are not `.once` listeners for the event, in order: every
/// other listener stays registered.
pub proof fn law_dispatch_keeps_the_others<H>(ls: Seq<(usize, Seq<char>, EventOptions, H)>, event: Seq<char>)
    requires
        forall|i: int, j: int| 0 <= i < j < ls.len() ==> (#[trigger] ls[i]).0 != (#[trigger] ls[j]).0,
    ensures
        ls.filter(|e: (usize, Seq<char>, EventOptions, H)| !spent_ids(ls, event).contains(e.0))
            == ls.filter(not_once_for(event)),
{
    broadcast use vstd::seq_lib::group_filter_ensures;
    let p = |e: (usize, Seq<char>, EventOptions, H)| !spent_ids(ls, event).contains(e.0);
    let once = ls.filter(once_for(event));
    let spent = spent_ids(ls, event);
    assert forall|i: int| 0 <= i < ls.len() implies p(#[trigger] ls[i]) == not_once_for(event)(ls[i]) by {
        let e = ls[i];
        if once_for(event)(e) {
            assert(once.contains(e));
            let j = choose|j: int| 0 <= j < once.len() && once[j] == e;
            assert(spent[j] == e.0);
            assert(spent.contains(e.0));
        } else if spent.contains(e.0) {
            let j = choose|j: int| 0 <= j < spent.len() && spent[j] == e.0;
            assert(spent[j] == once[j].0);
            assert(once.contains(once[j]));
            ls.lemma_filter_contains_rev(once_for(event), once[j]);
            let k = choose|k: int| 0 <= k < ls.len() && ls[k] == once[j];
            if k < i {
                assert(ls[k].0 != ls[i].0);
            } else if i < k {
                assert(ls[i].0 != ls[k].0);
            }
            assert(once_for(event)(ls[k]));
        }
    }
    lemma_filter_agree(ls, p, not_once_for(event));
}

/// Listener `i` of `ls` fires for `event`: its name matches and its guards pass.
pub open spec fn fires<H>(ls: Seq<(usize, Seq<char>, EventOptions, H)>, i: int, event: Seq<char>, node: usize, ev: MockEvent) -> bool {
    ls[i].1 == event && guards_ok(ls[i].2, node, key_view(ev.key), ev.button, ev.target, held_of(ev))
}

impl<H: Fn(&str)> MockDom<H> {
    /// `node` is an element of this tree, and every handler registered on it
    /// for `event` may be called with `value`.
    pub open spec fn handlers_accept(&self, node: usize, event: Seq<char>, value: &str) -> bool {
        match self.node_at(node) {
            DomNode::Element { listeners, .. } => forall|i: int|
                0 <= i < listeners.len() && listeners[i].1 == event ==> call_requires(#[trigger] listeners[i].3, (value,)),
            DomNode::Absent => false,
            _ => true,
        }
    }

    /// Shared dispatch: applies `once` (removing the listener once it fires),
    /// evaluates the guard modifiers, and reports the prevent/stop modifiers of
    /// the listeners whose guards passed.
    fn dispatch_full(&mut self, node: usize, event: &str, value: &str, ev: &MockEvent) -> (r: DispatchOutcome)
        requires
            old(self).handlers_accept(node, event@, value),
        ensures
            final(self).len() == old(self).len(),
            final(self).next_handle() == old(self).next_handle(),
            old(self).handles_fresh() ==> final(self).handles_fresh(),
            forall|m: usize| m != node ==> final(self).node_at(m) == old(self).node_at(m),
            match old(self).node_at(node) {
                DomNode::Element { tag, attrs, props, children, inner_html, listeners } => {
                    &&& old(self).handles_fresh() ==> listeners.filter(
                        |e: (usize, Seq<char>, EventOptions, H)| !spent_ids(listeners, event@).contains(e.0),
                    ) == listeners.filter(not_once_for(event@))
                    &&& final(self).node_at(node) == (DomNode::Element { tag, attrs, props, children, inner_html,
                        listeners: listeners.filter(|e: (usize, Seq<char>, EventOptions, H)| !spent_ids(listeners, event@).contains(e.0)) })
                    &&& r.default_prevented == exists|i: int| 0 <= i < listeners.len() && #[trigger] fires(listeners, i, event@, node, *ev) && listeners[i].2.prevent_default
                    &&& r.propagation_stopped == exists|i: int| 0 <= i < listeners.len() && #[trigger] fires(listeners, i, event@, node, *ev) && listeners[i].2.stop_propagation
                    &&& forall|i: int| 0 <= i < listeners.len() && #[trigger] fires(listeners, i, event@, node, *ev)
                        ==> call_ensures(listeners[i].3, (value,), ())
                },
                other => final(self).node_at(node) == other && r == DispatchOutcome { default_prevented: false, propagation_stopped: false },
            },
    {
        let ghost start = *self;
        let mut outcome = DispatchOutcome { default_prevented: false, propagation_stopped: false };
        let want = chars_of(event);
        let mut spent: Vec<usize> = Vec::new();
        match &self.nodes[node] {
            NodeData::Element { listeners, .. } => {
                let ghost ls = listeners_view(listeners@);
                let n = listeners.len();
                let mut k: usize = 0;
                assert(ls.take(0).filter(once_for(event@)).map_values(|e: (usize, Seq<char>, EventOptions, H)| e.0) =~= spent@);
                assert forall|i: int| 0 <= i < listeners@.len() && listeners@[i].event@ == event@
                    implies call_requires(listeners@[i].handler, (value,)) by {
                    assert(ls[i] == (listeners@[i].id, listeners@[i].event@, listeners@[i].options, listeners@[i].handler));
                    assert(self.node_at(node) == data_view(self.nodes@[node as int]));
                    assert(self.node_at(node)->Element_listeners == ls);
                    assert(call_requires(ls[i].3, (value,)));
                }
                while k < n
                    invariant
                        k <= n == listeners@.len(),
                        ls == listeners_view(listeners@),
                        want@ == event@,
                        forall|i: int| 0 <= i < listeners@.len() && listeners@[i].event@ == event@
                            ==> call_requires(listeners@[i].handler, (value,)),
                        spent@ == ls.take(k as int).filter(once_for(event@)).map_values(|e: (usize, Seq<char>, EventOptions, H)| e.0),
                        outcome.default_prevented == exists|i: int| 0 <= i < k && #[trigger] fires(ls, i, event@, node, *ev) && ls[i].2.prevent_default,
                        outcome.propagation_stopped == exists|i: int| 0 <= i < k && #[trigger] fires(ls, i, event@, node, *ev) && ls[i].2.stop_propagation,
                        forall|i: int| 0 <= i < k && #[trigger] fires(ls, i, event@, node, *ev)
                            ==> call_ensures(listeners@[i].handler, (value,), ()),
                    decreases n - k,
                {
                    let l = &listeners[k];
                    assert(ls[k as int] == (l.id, l.event@, l.options, l.handler));
                    proof { lemma_filter_take_step(ls, k as int, once_for(event@)); }
                    let matches = chars_eq(&chars_of(l.event.as_str()), &want);
                    let ghost before = spent@;
                    if matches && l.options.once {
                        spent.push(l.id);
                        assert(spent@ =~= ls.take(k + 1).filter(once_for(event@)).map_values(|e: (usize, Seq<char>, EventOptions, H)| e.0));
                    }
                    if matches && guards_pass(&l.options, node, ev) {
                        if l.options.prevent_default {
                            outcome.default_prevented = true;
                        }
                        if l.options.stop_propagation {
                            outcome.propagation_stopped = true;
                        }
                        (l.handler)(value);
                    }
                    assert(fires(ls, k as int, event@, node, *ev) == (matches && guards_ok(l.options, node, key_view(ev.key), ev.button, ev.target, held_of(*ev))));
                    k += 1;
                }
                assert(ls.take(n as int) =~= ls);
            },
            _ => {
                return outcome;
            },
        }
        if let NodeData::Element { listeners, .. } = &mut self.nodes[node] {
            let mut taken: Vec<Listener<H>> = Vec::new();
            std::mem::swap(listeners, &mut taken);
            let ghost ls = listeners_view(taken@);
            let kept = drop_listeners(taken, &spent);
            assert((|e: (usize, Seq<char>, EventOptions, H)| !spent@.contains(e.0))
                =~= (|e: (usize, Seq<char>, EventOptions, H)| !spent_ids(ls, event@).contains(e.0)));
            *listeners = kept;
        }
        proof {
            if start.handles_fresh() {
                let ls0 = listeners_at(start.node_at(node));
                assert(listener_ids_below(ls0, start.next_handle()));
                law_dispatch_keeps_the_others(ls0, event@);
                assert forall|m: usize| listener_ids_below(#[trigger] listeners_at(self.node_at(m)), self.next_handle()) by {
                    assert(listener_ids_below(listeners_at(start.node_at(m)), start.next_handle()));
                    if m < start.nodes@.len() && m != node {
                        assert(self.nodes@[m as int] == start.nodes@[m as int]);
                    }
                    if m == node {
                        lemma_ids_below_filter(
                            ls0,
                            start.next_handle(),
                            |e: (usize, Seq<char>, EventOptions, H)| !spent_ids(ls0, event@).contains(e.0),
                        );
                    }
                }
            }
        }
        outcome
    }

    /// Invoke listeners registered for `event` on `node` with no value and a
    /// self-targeted event (so `.self` passes, no key/button).
    pub fn dispatch(&mut self, node: usize, event: &str) -> (r: DispatchOutcome)
        requires
            old(self).handlers_accept(node, event@, ""),
        ensures
            final(self).len() == old(self).len(),
            final(self).next_handle() == old(self).next_handle(),
            old(self).handles_fresh() ==> final(self).handles_fresh(),
            forall|m: usize| m != node ==> final(self).node_at(m) == old(self).node_at(m),
            match old(self).node_at(node) {
                DomNode::Element { tag, attrs, props, children, inner_html, listeners } => {
                    &&& old(self).handles_fresh() ==> listeners.filter(
                        |e: (usize, Seq<char>, EventOptions, H)| !spent_ids(listeners, event@).contains(e.0),
                    ) == listeners.filter(not_once_for(event@))
                    &&& final(self).node_at(node) == (DomNode::Element { tag, attrs, props, children, inner_html,
                        listeners: listeners.filter(|e: (usize, Seq<char>, EventOptions, H)| !spent_ids(listeners, event@).contains(e.0)) })
                    &&& r.default_prevented == exists|i: int| 0 <= i < listeners.len() && #[trigger] fires(listeners, i, event@, node, MockEvent { key: None, button: None, target: None, ctrl: false, alt: false, shift: false, meta: false }) && listeners[i].2.prevent_default
                    &&& r.propagation_stopped == exists|i: int| 0 <= i < listeners.len() && #[trigger] fires(listeners, i, event@, node, MockEvent { key: None, button: None, target: None, ctrl: false, alt: false, shift: false, meta: false }) && listeners[i].2.stop_propagation
                    &&& forall|i: int| 0 <= i < listeners.len() && #[trigger] fires(listeners, i, event@, node, MockEvent { key: None, button: None, target: None, ctrl: false, alt: false, shift: false, meta: false })
                        ==> call_ensures(listeners[i].3, ("",), ())
                },
                other => final(self).node_at(node) == other && r == DispatchOutcome { default_prevented: false, propagation_stopped: false },
            },
    {
        self.dispatch_value(node, event, "")
    }

    /// Invoke listeners registered for `event` on `node`, passing `value`
    /// (e.g. simulating typing into an input), with a self-targeted event.
    pub fn dispatch_value(&mut self, node: usize, event: &str, value: &str) -> (r: DispatchOutcome)
        requires
            old(self).handlers_accept(node, event@, value),
        ensures
            final(self).len() == old(self).len(),
            final(self).next_handle() == old(self).next_handle(),
            old(self).handles_fresh() ==> final(self).handles_fresh(),
            forall|m: usize| m != node ==> final(self).node_at(m) == old(self).node_at(m),
            match old(self).node_at(node) {
                DomNode::Element { tag, attrs, props, children, inner_html, listeners } => {
                    &&& old(self).handles_fresh() ==> listeners.filter(
                        |e: (usize, Seq<char>, EventOptions, H)| !spent_ids(listeners, event@).contains(e.0),
                    ) == listeners.filter(not_once_for(event@))
                    &&& final(self).node_at(node) == (DomNode::Element { tag, attrs, props, children, inner_html,
                        listeners: listeners.filter(|e: (usize, Seq<char>, EventOptions, H)| !spent_ids(listeners, event@).contains(e.0)) })
                    &&& r.default_prevented == exists|i: int| 0 <= i < listeners.len() && #[trigger] fires(listeners, i, event@, node, MockEvent { key: None, button: None, target: None, ctrl: false, alt: false, shift: false, meta: false }) && listeners[i].2.prevent_default
                    &&& r.propagation_stopped == exists|i: int| 0 <= i < listeners.len() && #[trigger] fires(listeners, i, event@, node, MockEvent { key: None, button: None, target: None, ctrl: false, alt: false, shift: false, meta: false }) && listeners[i].2.stop_propagation
                    &&& forall|i: int| 0 <= i < listeners.len() && #[trigger] fires(listeners, i, event@, node, MockEvent { key: None, button: None, target: None, ctrl: false, alt: false, shift: false, meta: false })
                        ==> call_ensures(listeners[i].3, (value,), ())
                },
                other => final(self).node_at(node) == other && r == DispatchOutcome { default_prevented: false, propagation_stopped: false },
            },
    {
        let ev = MockEvent { key: None, button: None, target: None, ctrl: false, alt: false, shift: false, meta: false };
        self.dispatch_full(node, event, value, &ev)
    }

    /// Invoke listeners for `event` on `node` with simulated event data, so the
    /// guard modifiers (`.self` / key / mouse-button) can be exercised.
    pub fn dispatch_event(&mut self, node: usize, event: &str, ev: MockEvent) -> (r: DispatchOutcome)
        requires
            old(self).handlers_accept(node, event@, ""),
        ensures
            final(self).len() == old(self).len(),
            final(self).next_handle() == old(self).next_handle(),
            old(self).handles_fresh() ==> final(self).handles_fresh(),
            forall|m: usize| m != node ==> final(self).node_at(m) == old(self).node_at(m),
            match old(self).node_at(node) {
                DomNode::Element { tag, attrs, props, children, inner_html, listeners } => {
                    &&& old(self).handles_fresh() ==> listeners.filter(
                        |e: (usize, Seq<char>, EventOptions, H)| !spent_ids(listeners, event@).contains(e.0),
                    ) == listeners.filter(not_once_for(event@))
                    &&& final(self).node_at(node) == (DomNode::Element { tag, attrs, props, children, inner_html,
                        listeners: listeners.filter(|e: (usize, Seq<char>, EventOptions, H)| !spent_ids(listeners, event@).contains(e.0)) })
                    &&& r.default_prevented == exists|i: int| 0 <= i < listeners.len() && #[trigger] fires(listeners, i, event@, node, ev) && listeners[i].2.prevent_default
                    &&& r.propagation_stopped == exists|i: int| 0 <= i < listeners.len() && #[trigger] fires(listeners, i, event@, node, ev) && listeners[i].2.stop_propagation
                    &&& forall|i: int| 0 <= i < listeners.len() && #[trigger] fires(listeners, i, event@, node, ev)
                        ==> call_ensures(listeners[i].3, ("",), ())
                },
                other => final(self).node_at(node) == other && r == DispatchOutcome { default_prevented: false, propagation_stopped: false },
            },
    {
        self.dispatch_full(node, event, "", &ev)
    }
}

} // verus!
