//! The template syntax tree and its mathematical view.
use vstd::prelude::*;

verus! {

/// A template node.
pub enum Node {
    Element(Element),
    StaticText(String),
    DynText(String),
}

/// A template element.
pub struct Element {
    pub tag: String,
    pub attrs: Vec<Attr>,
    pub children: Vec<Node>,
}

/// A template attribute: static `name="v"`, bound `:name="expr"`, or event `@name="handler"`.
pub enum Attr {
    Static { name: String, value: String },
    Dyn { name: String, expr: String },
    Event { name: String, handler: String },
}

/// The view of a template node.
pub enum NodeV {
    Element(ElementV),
    StaticText(Seq<char>),
    DynText(Seq<char>),
}

/// The view of a template element.
pub struct ElementV {
    pub tag: Seq<char>,
    pub attrs: Seq<AttrV>,
    pub children: Seq<NodeV>,
}

/// The view of a template attribute.
pub enum AttrV {
    Static { name: Seq<char>, value: Seq<char> },
    Dyn { name: Seq<char>, expr: Seq<char> },
    Event { name: Seq<char>, handler: Seq<char> },
}

impl View for Attr {
    type V = AttrV;

    open spec fn view(&self) -> AttrV {
        match self {
            Attr::Static { name, value } => AttrV::Static { name: name@, value: value@ },
            Attr::Dyn { name, expr } => AttrV::Dyn { name: name@, expr: expr@ },
            Attr::Event { name, handler } => AttrV::Event { name: name@, handler: handler@ },
        }
    }
}

/// The views of a sequence of attributes.
pub open spec fn attrs_view(a: Seq<Attr>) -> Seq<AttrV> {
    a.map_values(|x: Attr| x@)
}

/// The view of a node.
pub open spec fn node_view(n: Node) -> NodeV
    decreases n,
{
    match n {
        Node::Element(e) => NodeV::Element(element_view(e)),
        Node::StaticText(s) => NodeV::StaticText(s@),
        Node::DynText(s) => NodeV::DynText(s@),
    }
}

/// The view of an element.
pub open spec fn element_view(e: Element) -> ElementV
    decreases e,
{
    ElementV { tag: e.tag@, attrs: attrs_view(e.attrs@), children: nodes_view(e.children@) }
}

/// The views of a sequence of nodes.
pub open spec fn nodes_view(s: Seq<Node>) -> Seq<NodeV>
    decreases s,
{
    if s.len() == 0 {
        seq![]
    } else {
        seq![node_view(s[0])] + nodes_view(s.subrange(1, s.len() as int))
    }
}

} // verus!

verus! {

/// `nodes_view` distributes over concatenation.
pub proof fn lemma_nodes_view_add(a: Seq<Node>, b: Seq<Node>)
    ensures
        nodes_view(a + b) == nodes_view(a) + nodes_view(b),
    decreases a.len(),
{
    if a.len() == 0 {
        assert(a + b =~= b);
    } else {
        lemma_nodes_view_add(a.subrange(1, a.len() as int), b);
        assert((a + b).subrange(1, (a + b).len() as int) =~= a.subrange(1, a.len() as int) + b);
        assert((a + b)[0] == a[0]);
        assert(nodes_view(a + b) =~= seq![node_view(a[0])] + nodes_view(a.subrange(1, a.len() as int)) + nodes_view(b));
    }
}

/// `nodes_view` of a single node.
pub proof fn lemma_nodes_view_single(n: Node)
    ensures
        nodes_view(seq![n]) == seq![node_view(n)],
{
    assert(seq![n].subrange(1, 1) =~= Seq::<Node>::empty());
    assert(nodes_view(Seq::<Node>::empty()) =~= Seq::<NodeV>::empty());
}

/// `nodes_view` of a pushed sequence.
pub proof fn lemma_nodes_view_push(a: Seq<Node>, n: Node)
    ensures
        nodes_view(a.push(n)) == nodes_view(a).push(node_view(n)),
{
    lemma_nodes_view_add(a, seq![n]);
    lemma_nodes_view_single(n);
    assert(a.push(n) =~= a + seq![n]);
    assert(nodes_view(a).push(node_view(n)) =~= nodes_view(a) + seq![node_view(n)]);
}

/// `nodes_view` preserves length and maps each element.
pub proof fn lemma_nodes_view_index(a: Seq<Node>)
    ensures
        nodes_view(a).len() == a.len(),
        forall|i: int| 0 <= i < a.len() ==> #[trigger] nodes_view(a)[i] == node_view(a[i]),
    decreases a.len(),
{
    if a.len() > 0 {
        let t = a.subrange(1, a.len() as int);
        lemma_nodes_view_index(t);
        assert forall|i: int| 0 <= i < a.len() implies #[trigger] nodes_view(a)[i] == node_view(a[i]) by {
            if i > 0 {
                assert(nodes_view(a)[i] == nodes_view(t)[i - 1]);
                assert(t[i - 1] == a[i]);
            }
        }
    }
}

} // verus!
