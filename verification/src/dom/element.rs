//! The element builder that rendering code chains to build a node.
use vstd::prelude::*;
use crate::dom::backend::{set_pair, Backend, DomNode};
use crate::dom::event::EventOptions;
use crate::text::TextArg;

verus! {

/// Trusted raw HTML markup for the `v-html` directive.
///
/// The wrapped markup is inserted into the DOM **verbatim, with no escaping**.
/// Constructing a `RawHtml` is the explicit assertion that the markup is safe to
/// render. Building one from untrusted input (user text, network responses,
/// URL parameters) is a cross-site-scripting (XSS) vector — sanitize first. The
/// constructor is named loudly for the same reason React spells this
/// `dangerouslySetInnerHTML`.
pub struct RawHtml(String);

impl View for RawHtml {
    type V = Seq<char>;

    closed spec fn view(&self) -> Seq<char> {
        self.0@
    }
}

impl RawHtml {
    /// Wrap markup you trust to be safe. The content bypasses all escaping; see
    /// the [`RawHtml`] type docs for the XSS caveat.
    pub fn dangerously_from_html<S: TextArg>(html: S) -> (r: Self)
        ensures
            r@ == html.text(),
    {
        RawHtml(String::from_str(html.as_text()))
    }

    /// The wrapped markup.
    pub fn as_str(&self) -> (s: &str)
        ensures
            s@ == self@,
    {
        self.0.as_str()
    }
}

/// Builder for an element node: each step updates the element on the backend
/// and hands the builder back, so calls chain.
pub struct El<'a, B: Backend> {
    /// The backend the element lives in.
    pub backend: &'a mut B,
    /// The element being built.
    pub node: B::Node,
}

/// `after` is the element `before` with one more listener, for `event` with
/// `options` and `handler`, at the end.
pub open spec fn listener_added<N, L, H>(
    before: DomNode<N, L, H>,
    after: DomNode<N, L, H>,
    event: Seq<char>,
    options: EventOptions,
    handler: H,
) -> bool {
    match (before, after) {
        (
            DomNode::Element { tag, attrs, props, children, inner_html, listeners },
            DomNode::Element { tag: t2, attrs: a2, props: p2, children: c2, inner_html: h2, listeners: l2 },
        ) => t2 == tag && a2 == attrs && p2 == props && c2 == children && h2 == inner_html
            && l2.len() == listeners.len() + 1 && l2.drop_last() == listeners
            && l2.last().1 == event && l2.last().2 == options && l2.last().3 == handler,
        (before, after) => after == before,
    }
}

/// `n` is an element of `b`.
pub open spec fn is_element<B: Backend>(b: B, n: B::Node) -> bool {
    b.node(n) is Element
}

impl<'a, B: Backend> El<'a, B> {
    /// Create a new element with the given tag.
    pub fn new(backend: &'a mut B, tag: &str) -> (r: Self)
        ensures
            old(backend).node(r.node) is Absent,
            r.backend.node(r.node) == (DomNode::<B::Node, B::Listener, B::Handler>::Element {
                tag: tag@,
                attrs: seq![],
                props: seq![],
                children: seq![],
                inner_html: None,
                listeners: seq![],
            }),
            forall|m: B::Node| m != r.node ==> r.backend.node(m) == old(backend).node(m),
            *final(r.backend) == *final(backend),
    {
        let node = backend.create_element(tag);
        El { backend, node }
    }

    /// Set a static attribute.
    pub fn attr(self, name: &str, value: &str) -> (r: Self)
        requires
            is_element(*self.backend, self.node),
        ensures
            r.node == self.node,
            *final(r.backend) == *final(self.backend),
            r.backend.node(r.node) == match old(self.backend).node(self.node) {
                DomNode::Element { tag, attrs, props, children, inner_html, listeners } =>
                    DomNode::Element { tag, attrs: set_pair(attrs, name@, value@), props, children, inner_html, listeners },
                other => other,
            },
            forall|m: B::Node| m != self.node ==> r.backend.node(m) == old(self.backend).node(m),
    {
        self.backend.set_attribute(&self.node, name, value);
        self
    }

    /// Append a static text child.
    pub fn text(self, data: &str) -> (r: Self)
        requires
            is_element(*self.backend, self.node),
        ensures
            r.node == self.node,
            *final(r.backend) == *final(self.backend),
            exists|t: B::Node| {
                &&& old(self.backend).node(t) is Absent
                &&& #[trigger] r.backend.node(t) == DomNode::<B::Node, B::Listener, B::Handler>::Text { data: data@ }
                &&& r.backend.node(r.node) == match old(self.backend).node(self.node) {
                    DomNode::Element { tag, attrs, props, children, inner_html, listeners } =>
                        DomNode::Element { tag, attrs, props, children: children.push(t), inner_html, listeners },
                    other => other,
                }
                &&& forall|m: B::Node| m != self.node && m != t ==> r.backend.node(m) == old(self.backend).node(m)
            },
    {
        let ghost before = *self.backend;
        let text = self.backend.create_text(data);
        assert(text != self.node);
        self.backend.append_child(&self.node, &text);
        assert(self.backend.node(text) == DomNode::<B::Node, B::Listener, B::Handler>::Text { data: data@ });
        self
    }

    /// Append an already-built child node.
    pub fn child(self, child: B::Node) -> (r: Self)
        requires
            is_element(*self.backend, self.node),
        ensures
            r.node == self.node,
            *final(r.backend) == *final(self.backend),
            r.backend.node(r.node) == match old(self.backend).node(self.node) {
                DomNode::Element { tag, attrs, props, children, inner_html, listeners } =>
                    DomNode::Element { tag, attrs, props, children: children.push(child), inner_html, listeners },
                other => other,
            },
            forall|m: B::Node| m != self.node ==> r.backend.node(m) == old(self.backend).node(m),
    {
        self.backend.append_child(&self.node, &child);
        self
    }

    /// Attach an event listener with no modifiers. The handler receives the
    /// event's value.
    pub fn on(self, event: &str, handler: B::Handler) -> (r: Self)
        requires
            is_element(*self.backend, self.node),
        ensures
            r.node == self.node,
            *final(r.backend) == *final(self.backend),
            listener_added(old(self.backend).node(self.node), r.backend.node(r.node), event@, EventOptions::default_spec(), handler),
            forall|m: B::Node| m != self.node ==> r.backend.node(m) == old(self.backend).node(m),
    {
        self.on_opts(event, EventOptions::none(), handler)
    }

    /// Attach an event listener with explicit modifiers (the `@event.prevent`
    /// / `.stop` / `.once` / guard directives).
    pub fn on_opts(self, event: &str, options: EventOptions, handler: B::Handler) -> (r: Self)
        requires
            is_element(*self.backend, self.node),
        ensures
            r.node == self.node,
            *final(r.backend) == *final(self.backend),
            listener_added(old(self.backend).node(self.node), r.backend.node(r.node), event@, options, handler),
            forall|m: B::Node| m != self.node ==> r.backend.node(m) == old(self.backend).node(m),
    {
        let ghost before = self.backend.node(self.node);
        let ghost h = handler;
        let listener = self.backend.add_event_listener(&self.node, event, options, handler);
        proof {
            if let DomNode::Element { listeners, .. } = before {
                assert(listeners.push((listener, event@, options, h)).drop_last() =~= listeners);
            }
        }
        self
    }

    /// Attach an event listener that receives the event's value (e.g. the
    /// text of an input).
    pub fn on_value(self, event: &str, handler: B::Handler) -> (r: Self)
        requires
            is_element(*self.backend, self.node),
        ensures
            r.node == self.node,
            *final(r.backend) == *final(self.backend),
            listener_added(old(self.backend).node(self.node), r.backend.node(r.node), event@, EventOptions::default_spec(), handler),
            forall|m: B::Node| m != self.node ==> r.backend.node(m) == old(self.backend).node(m),
    {
        self.on_opts(event, EventOptions::none(), handler)
    }

    /// Finish building and return the node.
    pub fn finish(self) -> (n: B::Node)
        ensures
            n == self.node,
            *final(self.backend) == *old(self.backend),
    {
        self.node
    }
}

} // verus!
