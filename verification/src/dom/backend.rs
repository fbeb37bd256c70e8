//! The abstraction over a tree of DOM-like nodes that rendering targets.
use vstd::prelude::*;
use crate::dom::event::EventOptions;

verus! {

/// What a backend node holds, as far as rendering can observe it.
pub enum DomNode<N, L, H> {
    /// An element: its tag, attributes and properties (`(name, value)` in the
    /// order first set), children, raw inner HTML (which replaces the children
    /// when set) and listeners (handle, event name, modifiers).
    Element {
        tag: Seq<char>,
        attrs: Seq<(Seq<char>, Seq<char>)>,
        props: Seq<(Seq<char>, Seq<char>)>,
        children: Seq<N>,
        inner_html: Option<Seq<char>>,
        listeners: Seq<(L, Seq<char>, EventOptions, H)>,
    },
    /// A text node.
    Text { data: Seq<char> },
    /// An invisible placeholder used to position dynamic content.
    Anchor,
    /// No node: a handle the backend never handed out.
    Absent,
}

/// The index of the first pair named `name` at or after `i`.
pub open spec fn pair_index(pairs: Seq<(Seq<char>, Seq<char>)>, name: Seq<char>, i: int) -> Option<int>
    decreases pairs.len() - i,
{
    if i < 0 || i >= pairs.len() {
        None
    } else if pairs[i].0 == name {
        Some(i)
    } else {
        pair_index(pairs, name, i + 1)
    }
}

/// `pairs` with `name` set to `value`: an existing entry keeps its place and
/// takes the new value, a new name is appended.
pub open spec fn set_pair(pairs: Seq<(Seq<char>, Seq<char>)>, name: Seq<char>, value: Seq<char>) -> Seq<(Seq<char>, Seq<char>)> {
    match pair_index(pairs, name, 0) {
        Some(i) => pairs.update(i, (name, value)),
        None => pairs.push((name, value)),
    }
}

/// Keeps every pair not named `name`.
pub open spec fn other_name(name: Seq<char>) -> spec_fn((Seq<char>, Seq<char>)) -> bool {
    |p: (Seq<char>, Seq<char>)| p.0 != name
}

/// `pairs` without any entry named `name`.
pub open spec fn remove_pair(pairs: Seq<(Seq<char>, Seq<char>)>, name: Seq<char>) -> Seq<(Seq<char>, Seq<char>)> {
    pairs.filter(other_name(name))
}

/// The value of the first pair named `name`, if any: what a read of the
/// attribute or property gives.
pub open spec fn pair_get(pairs: Seq<(Seq<char>, Seq<char>)>, name: Seq<char>) -> Option<Seq<char>> {
    match pair_index(pairs, name, 0) {
        Some(i) => Some(pairs[i].1),
        None => None,
    }
}

/// `pair_index` finds the first pair named `name` at or after `i`.
proof fn lemma_pair_index(pairs: Seq<(Seq<char>, Seq<char>)>, name: Seq<char>, i: int)
    requires
        0 <= i,
    ensures
        match pair_index(pairs, name, i) {
            Some(k) => i <= k < pairs.len() && pairs[k].0 == name
                && forall|j: int| i <= j < k ==> (#[trigger] pairs[j]).0 != name,
            None => forall|j: int| i <= j < pairs.len() ==> (#[trigger] pairs[j]).0 != name,
        },
    decreases pairs.len() - i,
{
    if i < pairs.len() && pairs[i].0 != name {
        lemma_pair_index(pairs, name, i + 1);
    }
}

/// The first index of `name` is the one `pair_index` finds from 0, whatever
/// the pairs before it hold, as long as none of them is named `name`.
proof fn lemma_pair_index_unique(pairs: Seq<(Seq<char>, Seq<char>)>, name: Seq<char>, k: int)
    requires
        0 <= k < pairs.len(),
        pairs[k].0 == name,
        forall|j: int| 0 <= j < k ==> (#[trigger] pairs[j]).0 != name,
    ensures
        pair_index(pairs, name, 0) == Some(k),
{
    lemma_pair_index(pairs, name, 0);
    match pair_index(pairs, name, 0) {
        Some(m) => {
            if m < k {
                assert(pairs[m].0 != name);
            } else if m > k {
                assert(pairs[k].0 != name);
            }
        },
        None => {
            assert(pairs[k].0 != name);
        },
    }
}

/// No pair is named `name`, as `pair_index` reports.
proof fn lemma_pair_index_none(pairs: Seq<(Seq<char>, Seq<char>)>, name: Seq<char>)
    requires
        forall|j: int| 0 <= j < pairs.len() ==> (#[trigger] pairs[j]).0 != name,
    ensures
        pair_index(pairs, name, 0) is None,
{
    lemma_pair_index(pairs, name, 0);
    if pair_index(pairs, name, 0) is Some {
        let k = pair_index(pairs, name, 0)->Some_0;
        assert(pairs[k].0 != name);
    }
}

/// Setting a pair then reading it gives the value written; other names read
/// as before; a second write to the same name replaces the first; and a
/// removed name reads as absent.
pub proof fn law_pairs_read_after_write(
    pairs: Seq<(Seq<char>, Seq<char>)>,
    name: Seq<char>,
    other: Seq<char>,
    v1: Seq<char>,
    v2: Seq<char>,
)
    ensures
        pair_get(set_pair(pairs, name, v1), name) == Some(v1),
        other != name ==> pair_get(set_pair(pairs, name, v1), other) == pair_get(pairs, other),
        set_pair(set_pair(pairs, name, v1), name, v2) == set_pair(pairs, name, v2),
        pair_get(remove_pair(pairs, name), name) is None,
        other != name ==> pair_get(remove_pair(pairs, name), other) == pair_get(pairs, other),
{
    lemma_pair_index(pairs, name, 0);
    lemma_pair_index(pairs, other, 0);
    let s1 = set_pair(pairs, name, v1);
    // Where `name` sits after the first write.
    let k = match pair_index(pairs, name, 0) {
        Some(i) => i,
        None => pairs.len() as int,
    };
    assert(s1[k] == (name, v1));
    assert forall|j: int| 0 <= j < k implies (#[trigger] s1[j]).0 != name by {
        assert(s1[j] == pairs[j]);
    }
    lemma_pair_index_unique(s1, name, k);
    // A second write lands on the same place.
    let s2 = set_pair(pairs, name, v2);
    assert(set_pair(s1, name, v2) =~= s2);
    // Other names are found where they were.
    if other != name {
        match pair_index(pairs, other, 0) {
            Some(m) => {
                assert(s1[m] == pairs[m]);
                assert forall|j: int| 0 <= j < m implies (#[trigger] s1[j]).0 != other by {
                    if j != k { assert(s1[j] == pairs[j]); }
                }
                lemma_pair_index_unique(s1, other, m);
            },
            None => {
                assert forall|j: int| 0 <= j < s1.len() implies (#[trigger] s1[j]).0 != other by {
                    if j != k { assert(s1[j] == pairs[j]); }
                }
                lemma_pair_index_none(s1, other);
            },
        }
    }
    // Removal.
    let f = other_name(name);
    let r = remove_pair(pairs, name);
    assert forall|j: int| 0 <= j < r.len() implies (#[trigger] r[j]).0 != name by {
        assert(f(r[j]));
    }
    lemma_pair_index_none(r, name);
    if other != name {
        lemma_filter_first(pairs, f, other);
    }
}

/// Filtering out pairs of another name keeps the first pair named `other`.
proof fn lemma_filter_first(
    pairs: Seq<(Seq<char>, Seq<char>)>,
    f: spec_fn((Seq<char>, Seq<char>)) -> bool,
    other: Seq<char>,
)
    requires
        forall|p: (Seq<char>, Seq<char>)| p.0 == other ==> #[trigger] f(p),
    ensures
        pair_get(pairs.filter(f), other) == pair_get(pairs, other),
    decreases pairs.len(),
{
    reveal(Seq::filter);
    if pairs.len() > 0 {
        let init = pairs.drop_last();
        lemma_filter_first(init, f, other);
        lemma_pair_index(init, other, 0);
        lemma_pair_index(pairs, other, 0);
        let fi = init.filter(f);
        lemma_pair_index(fi, other, 0);
        let last = pairs.last();
        let fp = pairs.filter(f);
        assert(fp == if f(last) { fi.push(last) } else { fi });
        match pair_index(init, other, 0) {
            Some(m) => {
                assert(pairs[m] == init[m]);
                assert forall|j: int| 0 <= j < m implies (#[trigger] pairs[j]).0 != other by {
                    assert(pairs[j] == init[j]);
                }
                lemma_pair_index_unique(pairs, other, m);
                let mf = pair_index(fi, other, 0)->Some_0;
                assert(fp[mf] == fi[mf]);
                assert forall|j: int| 0 <= j < mf implies (#[trigger] fp[j]).0 != other by {
                    assert(fp[j] == fi[j]);
                }
                lemma_pair_index_unique(fp, other, mf);
            },
            None => {
                assert(pair_index(fi, other, 0) is None);
                if last.0 == other {
                    assert forall|j: int| 0 <= j < pairs.len() - 1 implies (#[trigger] pairs[j]).0 != other by {
                        assert(pairs[j] == init[j]);
                    }
                    lemma_pair_index_unique(pairs, other, pairs.len() - 1);
                    assert forall|j: int| 0 <= j < fi.len() implies (#[trigger] fp[j]).0 != other by {
                        assert(fp[j] == fi[j]);
                    }
                    lemma_pair_index_unique(fp, other, fi.len() as int);
                } else {
                    assert forall|j: int| 0 <= j < pairs.len() implies (#[trigger] pairs[j]).0 != other by {
                        if j < pairs.len() - 1 { assert(pairs[j] == init[j]); }
                    }
                    lemma_pair_index_none(pairs, other);
                    assert forall|j: int| 0 <= j < fp.len() implies (#[trigger] fp[j]).0 != other by {
                        if j < fi.len() { assert(fp[j] == fi[j]); }
                    }
                    lemma_pair_index_none(fp, other);
                }
            },
        }
    }
}

/// Keeps every item other than `x`.
pub open spec fn other_than<N>(x: N) -> spec_fn(N) -> bool {
    |c: N| c != x
}

/// Keeps every listener entry other than the one with handle `l`.
pub open spec fn listener_other_than<L, H>(l: L) -> spec_fn((L, Seq<char>, EventOptions, H)) -> bool {
    |e: (L, Seq<char>, EventOptions, H)| e.0 != l
}

/// `children` with `child` moved to just before the first `anchor` (or to the
/// end when `anchor` is not among them), as the DOM's `insertBefore` does.
pub open spec fn insert_before_seq<N>(children: Seq<N>, child: N, anchor: N) -> Seq<N> {
    let rest = children.filter(other_than(child));
    let at = match rest.index_of_first(anchor) {
        Some(i) => i,
        None => rest.len() as int,
    };
    rest.insert(at, child)
}

/// Inserting moves: after `insert_before`, `child` occurs exactly once among
/// the children, taking it out again leaves the other children in their
/// order, and when `anchor` is another child, `child` stands just before it.
pub proof fn law_insert_before_moves<N>(children: Seq<N>, child: N, anchor: N)
    ensures
        ({
            let rest = children.filter(other_than(child));
            let r = insert_before_seq(children, child, anchor);
            exists|k: int| {
                &&& 0 <= k < r.len()
                &&& #[trigger] r[k] == child
                &&& r.remove(k) == rest
                &&& forall|j: int| 0 <= j < r.len() && j != k ==> r[j] != child
                &&& (anchor != child && children.contains(anchor) ==> k + 1 < r.len() && r[k + 1] == anchor)
            }
        }),
{
    broadcast use vstd::seq_lib::group_filter_ensures;
    let rest = children.filter(other_than(child));
    let r = insert_before_seq(children, child, anchor);
    rest.index_of_first_ensures(anchor);
    let k = match rest.index_of_first(anchor) {
        Some(i) => i,
        None => rest.len() as int,
    };
    assert(r == rest.insert(k, child));
    assert(r.remove(k) =~= rest);
    assert(r[k] == child);
    assert forall|j: int| 0 <= j < r.len() && j != k implies r[j] != child by {
        let i = if j < k { j } else { j - 1 };
        assert(r[j] == rest[i]);
        assert(other_than(child)(rest[i]));
    }
    if anchor != child && children.contains(anchor) {
        let m = choose|m: int| 0 <= m < children.len() && children[m] == anchor;
        assert(other_than(child)(children[m]));
        assert(rest.contains(anchor));
        assert(r[k + 1] == rest[k]);
    }
}

/// Abstraction over a tree of DOM-like nodes. Implemented by [`crate::dom::mock::MockDom`]
/// for tests; a browser backend implements it over the real DOM.
pub trait Backend: Sized {
    type Node;
    /// Handle to an attached event listener, used to detach it later.
    type Listener;
    /// An event handler, called with the event's value.
    type Handler;

    /// What the node `n` holds.
    spec fn node(&self, n: Self::Node) -> DomNode<Self::Node, Self::Listener, Self::Handler>;

    fn create_element(&mut self, tag: &str) -> (n: Self::Node)
        ensures
            old(self).node(n) is Absent,
            final(self).node(n) == (DomNode::<Self::Node, Self::Listener, Self::Handler>::Element {
                tag: tag@,
                attrs: seq![],
                props: seq![],
                children: seq![],
                inner_html: None,
                listeners: seq![],
            }),
            forall|m: Self::Node| m != n ==> final(self).node(m) == old(self).node(m),
    ;

    fn create_text(&mut self, data: &str) -> (n: Self::Node)
        ensures
            old(self).node(n) is Absent,
            final(self).node(n) == (DomNode::<Self::Node, Self::Listener, Self::Handler>::Text { data: data@ }),
            forall|m: Self::Node| m != n ==> final(self).node(m) == old(self).node(m),
    ;

    /// Create an empty placeholder used to anchor dynamic content in the tree.
    fn create_anchor(&mut self) -> (n: Self::Node)
        ensures
            old(self).node(n) is Absent,
            final(self).node(n) == DomNode::<Self::Node, Self::Listener, Self::Handler>::Anchor,
            forall|m: Self::Node| m != n ==> final(self).node(m) == old(self).node(m),
    ;

    fn set_text(&mut self, node: &Self::Node, data: &str)
        requires
            !(old(self).node(*node) is Absent),
        ensures
            final(self).node(*node) == match old(self).node(*node) {
                DomNode::Text { .. } => DomNode::Text { data: data@ },
                other => other,
            },
            forall|m: Self::Node| m != *node ==> final(self).node(m) == old(self).node(m),
    ;

    fn set_attribute(&mut self, node: &Self::Node, name: &str, value: &str)
        requires
            !(old(self).node(*node) is Absent),
        ensures
            final(self).node(*node) == match old(self).node(*node) {
                DomNode::Element { tag, attrs, props, children, inner_html, listeners } =>
                    DomNode::Element { tag, attrs: set_pair(attrs, name@, value@), props, children, inner_html, listeners },
                other => other,
            },
            forall|m: Self::Node| m != *node ==> final(self).node(m) == old(self).node(m),
    ;

    /// Set a DOM property (the `:name.prop` binding), e.g. `node.value = "x"`,
    /// rather than an attribute.
    fn set_property(&mut self, node: &Self::Node, name: &str, value: &str)
        requires
            !(old(self).node(*node) is Absent),
        ensures
            final(self).node(*node) == match old(self).node(*node) {
                DomNode::Element { tag, attrs, props, children, inner_html, listeners } =>
                    DomNode::Element { tag, attrs, props: set_pair(props, name@, value@), children, inner_html, listeners },
                other => other,
            },
            forall|m: Self::Node| m != *node ==> final(self).node(m) == old(self).node(m),
    ;

    /// Set a boolean DOM property, e.g. a checkbox's `node.checked = true`.
    fn set_bool_property(&mut self, node: &Self::Node, name: &str, value: bool)
        requires
            !(old(self).node(*node) is Absent),
        ensures
            final(self).node(*node) == match old(self).node(*node) {
                DomNode::Element { tag, attrs, props, children, inner_html, listeners } =>
                    DomNode::Element { tag, attrs, props: set_pair(props, name@, if value { "true"@ } else { "false"@ }), children, inner_html, listeners },
                other => other,
            },
            forall|m: Self::Node| m != *node ==> final(self).node(m) == old(self).node(m),
    ;

    /// Remove a previously-set attribute.
    fn remove_attribute(&mut self, node: &Self::Node, name: &str)
        requires
            !(old(self).node(*node) is Absent),
        ensures
            final(self).node(*node) == match old(self).node(*node) {
                DomNode::Element { tag, attrs, props, children, inner_html, listeners } =>
                    DomNode::Element { tag, attrs: remove_pair(attrs, name@), props, children, inner_html, listeners },
                other => other,
            },
            forall|m: Self::Node| m != *node ==> final(self).node(m) == old(self).node(m),
    ;

    /// Replace the element's children with raw, unescaped markup (the
    /// `v-html` directive).
    fn set_inner_html(&mut self, node: &Self::Node, html: &str)
        requires
            !(old(self).node(*node) is Absent),
        ensures
            final(self).node(*node) == match old(self).node(*node) {
                DomNode::Element { tag, attrs, props, children, inner_html, listeners } =>
                    DomNode::Element { tag, attrs, props, children, inner_html: Some(html@), listeners },
                other => other,
            },
            forall|m: Self::Node| m != *node ==> final(self).node(m) == old(self).node(m),
    ;

    fn append_child(&mut self, parent: &Self::Node, child: &Self::Node)
        requires
            !(old(self).node(*parent) is Absent),
        ensures
            final(self).node(*parent) == match old(self).node(*parent) {
                DomNode::Element { tag, attrs, props, children, inner_html, listeners } =>
                    DomNode::Element { tag, attrs, props, children: children.push(*child), inner_html, listeners },
                other => other,
            },
            forall|m: Self::Node| m != *parent ==> final(self).node(m) == old(self).node(m),
    ;

    /// Insert `child` immediately before `anchor` within `parent`.
    fn insert_before(&mut self, parent: &Self::Node, child: &Self::Node, anchor: &Self::Node)
        requires
            !(old(self).node(*parent) is Absent),
        ensures
            final(self).node(*parent) == match old(self).node(*parent) {
                DomNode::Element { tag, attrs, props, children, inner_html, listeners } =>
                    DomNode::Element { tag, attrs, props, children: insert_before_seq(children, *child, *anchor), inner_html, listeners },
                other => other,
            },
            forall|m: Self::Node| m != *parent ==> final(self).node(m) == old(self).node(m),
    ;

    fn remove_child(&mut self, parent: &Self::Node, child: &Self::Node)
        requires
            !(old(self).node(*parent) is Absent),
        ensures
            final(self).node(*parent) == match old(self).node(*parent) {
                DomNode::Element { tag, attrs, props, children, inner_html, listeners } =>
                    DomNode::Element { tag, attrs, props, children: children.filter(other_than(*child)), inner_html, listeners },
                other => other,
            },
            forall|m: Self::Node| m != *parent ==> final(self).node(m) == old(self).node(m),
    ;

    /// Attach an event listener. The handler receives the event's value, or an
    /// empty string for events that carry no value. Returns a handle that
    /// [`Backend::remove_event_listener`] takes to detach it.
    fn add_event_listener(&mut self, node: &Self::Node, event: &str, options: EventOptions, handler: Self::Handler) -> (l: Self::Listener)
        requires
            !(old(self).node(*node) is Absent),
        ensures
            final(self).node(*node) == match old(self).node(*node) {
                DomNode::Element { tag, attrs, props, children, inner_html, listeners } =>
                    DomNode::Element { tag, attrs, props, children, inner_html, listeners: listeners.push((l, event@, options, handler)) },
                other => other,
            },
            forall|m: Self::Node| m != *node ==> final(self).node(m) == old(self).node(m),
    ;

    /// Detach a listener previously attached with [`Backend::add_event_listener`].
    fn remove_event_listener(&mut self, node: &Self::Node, listener: Self::Listener)
        requires
            !(old(self).node(*node) is Absent),
        ensures
            final(self).node(*node) == match old(self).node(*node) {
                DomNode::Element { tag, attrs, props, children, inner_html, listeners } =>
                    DomNode::Element { tag, attrs, props, children, inner_html,
                        listeners: listeners.filter(listener_other_than(listener)) },
                other => other,
            },
            forall|m: Self::Node| m != *node ==> final(self).node(m) == old(self).node(m),
    ;
}

} // verus!
