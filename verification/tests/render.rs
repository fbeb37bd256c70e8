//! DOM rendering primitives, exercised against the in-memory `MockDom` backend.

use std::cell::{Cell, RefCell};
use std::rc::Rc;
use vue_rs::{Backend, El, EventOptions, MockDom, MockEvent, RawHtml};

type Dom = MockDom<Box<dyn Fn(&str)>>;

#[test]
fn renders_static_element_with_text() {
    let mut dom = Dom::new();
    let node = El::new(&mut dom, "button").text("count is 0").finish();
    assert_eq!(dom.to_html(node), "<button>count is 0</button>");
}

#[test]
fn renders_static_attribute() {
    let mut dom = Dom::new();
    let node = El::new(&mut dom, "div")
        .attr("id", "app")
        .attr("class", "root")
        .finish();
    assert_eq!(dom.to_html(node), r#"<div id="app" class="root"></div>"#);
}

#[test]
fn nests_child_elements() {
    let mut dom = Dom::new();
    let li = El::new(&mut dom, "li").text("item").finish();
    let ul = El::new(&mut dom, "ul").child(li).finish();
    assert_eq!(dom.to_html(ul), "<ul><li>item</li></ul>");
}

#[test]
fn plain_on_reports_no_modifiers() {
    let mut dom = Dom::new();
    let node = El::new(&mut dom, "button").on("click", Box::new(|_: &str| {})).finish();
    let outcome = dom.dispatch(node, "click");
    assert!(!outcome.default_prevented);
    assert!(!outcome.propagation_stopped);
}

#[test]
fn to_html_escapes_text_content() {
    let mut dom = Dom::new();
    let node = El::new(&mut dom, "p")
        .text("a < b && c > d")
        .finish();
    assert_eq!(dom.to_html(node), "<p>a &lt; b &amp;&amp; c &gt; d</p>");
}

#[test]
fn to_html_escapes_attribute_values() {
    let mut dom = Dom::new();
    let node = El::new(&mut dom, "div")
        .attr("title", r#"a "quote" & <tag>"#)
        .finish();
    assert_eq!(
        dom.to_html(node),
        r#"<div title="a &quot;quote&quot; &amp; <tag>"></div>"#
    );
}

#[test]
fn setting_an_attribute_twice_keeps_its_position() {
    let mut dom = Dom::new();
    let node = El::new(&mut dom, "a")
        .attr("href", "/x")
        .attr("id", "l")
        .attr("href", "/y")
        .finish();
    assert_eq!(dom.to_html(node), r#"<a href="/y" id="l"></a>"#);
}

#[test]
fn handlers_run_and_once_listeners_detach() {
    let mut dom = Dom::new();
    let count = Rc::new(Cell::new(0));
    let c1 = count.clone();
    let node = El::new(&mut dom, "button").finish();
    dom.add_event_listener(
        &node,
        "click",
        EventOptions { once: true, prevent_default: true, ..Default::default() },
        Box::new(move |_: &str| c1.set(c1.get() + 1)),
    );
    let first = dom.dispatch(node, "click");
    assert!(first.default_prevented);
    let second = dom.dispatch(node, "click");
    assert!(!second.default_prevented);
    assert_eq!(count.get(), 1);
}

#[test]
fn dispatch_value_passes_the_value() {
    let mut dom = Dom::new();
    let seen = Rc::new(RefCell::new(String::new()));
    let s = seen.clone();
    let node = El::new(&mut dom, "input")
        .on("input", Box::new(move |v: &str| *s.borrow_mut() = v.to_string()))
        .finish();
    dom.dispatch_value(node, "input", "hello");
    assert_eq!(seen.borrow().as_str(), "hello");
}

#[test]
fn key_guard_filters_on_event_key() {
    let mut dom = Dom::new();
    let count = Rc::new(Cell::new(0));
    let c1 = count.clone();
    let node = El::new(&mut dom, "input").finish();
    dom.add_event_listener(
        &node,
        "keyup",
        EventOptions { keys: &["Enter"], stop_propagation: true, ..Default::default() },
        Box::new(move |_: &str| c1.set(c1.get() + 1)),
    );
    let miss = dom.dispatch_event(node, "keyup", MockEvent { key: Some("a".into()), ..Default::default() });
    assert!(!miss.propagation_stopped);
    let hit = dom.dispatch_event(node, "keyup", MockEvent { key: Some("Enter".into()), ..Default::default() });
    assert!(hit.propagation_stopped);
    assert_eq!(count.get(), 1);
}

#[test]
fn self_guard_and_button_guard() {
    let mut dom = Dom::new();
    let node = El::new(&mut dom, "div").finish();
    dom.add_event_listener(
        &node,
        "click",
        EventOptions { self_only: true, buttons: &[2], prevent_default: true, ..Default::default() },
        Box::new(|_: &str| {}),
    );
    let other = dom.dispatch_event(node, "click", MockEvent { target: Some(node + 1), button: Some(2), ..Default::default() });
    assert!(!other.default_prevented);
    let left = dom.dispatch_event(node, "click", MockEvent { button: Some(0), ..Default::default() });
    assert!(!left.default_prevented);
    let right = dom.dispatch_event(node, "click", MockEvent { button: Some(2), ..Default::default() });
    assert!(right.default_prevented);
}

#[test]
fn inner_html_replaces_children_verbatim() {
    let mut dom = Dom::new();
    let node = El::new(&mut dom, "div").text("ignored").finish();
    let html = RawHtml::dangerously_from_html("<b>x & y</b>");
    dom.set_inner_html(&node, html.as_str());
    assert_eq!(dom.to_html(node), "<div><b>x & y</b></div>");
}

#[test]
fn anchors_render_as_nothing_and_insert_before_moves() {
    let mut dom = Dom::new();
    let parent = El::new(&mut dom, "ul").finish();
    let anchor = dom.create_anchor();
    dom.append_child(&parent, &anchor);
    let a = El::new(&mut dom, "li").text("a").finish();
    let b = El::new(&mut dom, "li").text("b").finish();
    dom.insert_before(&parent, &a, &anchor);
    dom.insert_before(&parent, &b, &anchor);
    assert_eq!(dom.to_html(parent), "<ul><li>a</li><li>b</li></ul>");
    dom.insert_before(&parent, &a, &anchor);
    assert_eq!(dom.to_html(parent), "<ul><li>b</li><li>a</li></ul>");
    dom.remove_child(&parent, &b);
    assert_eq!(dom.to_html(parent), "<ul><li>a</li></ul>");
}

#[test]
fn find_returns_first_element_with_tag() {
    let mut dom = Dom::new();
    let _p = El::new(&mut dom, "p").finish();
    let s1 = El::new(&mut dom, "span").finish();
    let _s2 = El::new(&mut dom, "span").finish();
    assert_eq!(dom.find("span"), Some(s1));
    assert_eq!(dom.find("em"), None);
}

#[test]
fn set_text_and_remove_attribute() {
    let mut dom = Dom::new();
    let t = dom.create_text("a");
    dom.set_text(&t, "b<");
    assert_eq!(dom.to_html(t), "b&lt;");
    let d = El::new(&mut dom, "div").attr("x", "1").attr("y", "2").finish();
    dom.remove_attribute(&d, "x");
    assert_eq!(dom.to_html(d), r#"<div y="2"></div>"#);
}

#[test]
fn raw_html_round_trips_its_markup() {
    assert_eq!(RawHtml::dangerously_from_html(String::from("<i>")).as_str(), "<i>");
}

/// A handler that adds one to `count` each time it runs.
fn bump(count: &Rc<Cell<i32>>) -> Box<dyn Fn(&str)> {
    let c = count.clone();
    Box::new(move |_: &str| c.set(c.get() + 1))
}

#[test]
fn on_opts_prevent_default_is_reported_by_dispatch() {
    let mut dom = Dom::new();
    let count = Rc::new(Cell::new(0));
    let node = El::new(&mut dom, "a")
        .on_opts("click", EventOptions { prevent_default: true, ..Default::default() }, bump(&count))
        .finish();
    let outcome = dom.dispatch(node, "click");
    assert_eq!(count.get(), 1, "handler still runs");
    assert!(outcome.default_prevented, "prevent_default requested");
    assert!(!outcome.propagation_stopped);
}

#[test]
fn on_opts_stop_propagation_is_reported_by_dispatch() {
    let mut dom = Dom::new();
    let node = El::new(&mut dom, "button")
        .on_opts("click", EventOptions { stop_propagation: true, ..Default::default() }, Box::new(|_: &str| {}))
        .finish();
    let outcome = dom.dispatch(node, "click");
    assert!(outcome.propagation_stopped, "stop_propagation requested");
    assert!(!outcome.default_prevented);
}

#[test]
fn on_opts_once_runs_handler_only_once() {
    let mut dom = Dom::new();
    let count = Rc::new(Cell::new(0));
    let node = El::new(&mut dom, "button")
        .on_opts("click", EventOptions { once: true, ..Default::default() }, bump(&count))
        .finish();
    dom.dispatch(node, "click");
    dom.dispatch(node, "click");
    assert_eq!(count.get(), 1, "once listener fires a single time");
}

#[test]
fn on_opts_self_only_runs_when_target_is_the_element() {
    let mut dom = Dom::new();
    let count = Rc::new(Cell::new(0));
    let node = El::new(&mut dom, "div")
        .on_opts("click", EventOptions { self_only: true, ..Default::default() }, bump(&count))
        .finish();
    // Target is a different node (a descendant): the guard skips the handler.
    let child = El::new(&mut dom, "span").finish();
    dom.dispatch_event(node, "click", MockEvent { target: Some(child), ..Default::default() });
    assert_eq!(count.get(), 0, "self guard skips events from descendants");
    // Target is the element itself: the handler runs.
    dom.dispatch(node, "click");
    assert_eq!(count.get(), 1);
}

#[test]
fn on_opts_key_filter_runs_only_for_matching_key() {
    let mut dom = Dom::new();
    let count = Rc::new(Cell::new(0));
    let node = El::new(&mut dom, "input")
        .on_opts("keyup", EventOptions { keys: &["Enter"], ..Default::default() }, bump(&count))
        .finish();
    dom.dispatch_event(node, "keyup", MockEvent { key: Some("a".to_string()), ..Default::default() });
    assert_eq!(count.get(), 0, "non-matching key is ignored");
    dom.dispatch_event(node, "keyup", MockEvent { key: Some("Enter".to_string()), ..Default::default() });
    assert_eq!(count.get(), 1, "matching key runs the handler");
}

#[test]
fn on_opts_mouse_button_filter_runs_only_for_matching_button() {
    let mut dom = Dom::new();
    let count = Rc::new(Cell::new(0));
    let node = El::new(&mut dom, "button")
        .on_opts("click", EventOptions { buttons: &[2], ..Default::default() }, bump(&count))
        .finish();
    dom.dispatch_event(node, "click", MockEvent { button: Some(0), ..Default::default() });
    assert_eq!(count.get(), 0, "left button ignored by right-button filter");
    dom.dispatch_event(node, "click", MockEvent { button: Some(2), ..Default::default() });
    assert_eq!(count.get(), 1, "right button runs the handler");
}

#[test]
fn on_opts_system_modifier_runs_only_when_modifier_key_is_pressed() {
    let mut dom = Dom::new();
    let count = Rc::new(Cell::new(0));
    let node = El::new(&mut dom, "button")
        .on_opts("click", EventOptions { ctrl: true, ..Default::default() }, bump(&count))
        .finish();
    // No ctrl held: the guard skips the handler.
    dom.dispatch_event(node, "click", MockEvent::default());
    assert_eq!(count.get(), 0, "plain click ignored when .ctrl is required");
    // ctrl held (plus an irrelevant shift): the handler runs.
    dom.dispatch_event(node, "click", MockEvent { ctrl: true, shift: true, ..Default::default() });
    assert_eq!(count.get(), 1, "ctrl+click runs the handler");
}

#[test]
fn on_opts_exact_modifier_requires_the_exact_modifier_set() {
    let mut dom = Dom::new();
    let count = Rc::new(Cell::new(0));
    let node = El::new(&mut dom, "button")
        .on_opts("click", EventOptions { ctrl: true, exact: true, ..Default::default() }, bump(&count))
        .finish();
    // ctrl + an extra shift: exact rejects the surplus modifier.
    dom.dispatch_event(node, "click", MockEvent { ctrl: true, shift: true, ..Default::default() });
    assert_eq!(count.get(), 0, "exact rejects extra modifiers");
    // exactly ctrl and nothing else: the handler runs.
    dom.dispatch_event(node, "click", MockEvent { ctrl: true, ..Default::default() });
    assert_eq!(count.get(), 1, "exact ctrl-only runs the handler");
}

#[test]
fn on_value_receives_dispatched_value() {
    let mut dom = Dom::new();
    let captured: Rc<RefCell<String>> = Rc::new(RefCell::new(String::new()));
    let sink = captured.clone();
    let node = El::new(&mut dom, "input")
        .on_value("input", Box::new(move |v: &str| *sink.borrow_mut() = v.to_string()))
        .finish();
    dom.dispatch_value(node, "input", "hello");
    assert_eq!(*captured.borrow(), "hello");
}

#[test]
fn listener_handles_are_fresh_and_once_dispatch_keeps_the_others() {
    let mut dom = Dom::new();
    let count = Rc::new(Cell::new(0));
    let node = dom.create_element("button");
    let once = dom.add_event_listener(&node, "click", EventOptions { once: true, ..Default::default() }, bump(&count));
    let stay = dom.add_event_listener(&node, "click", EventOptions::none(), bump(&count));
    let other = dom.create_element("a");
    let third = dom.add_event_listener(&other, "click", EventOptions::none(), bump(&count));
    assert!(once != stay && stay != third && once != third);
    dom.dispatch(node, "click");
    assert_eq!(count.get(), 2);
    dom.dispatch(node, "click");
    assert_eq!(count.get(), 3, "the other listener stays registered");
    dom.remove_event_listener(&node, stay);
    dom.dispatch(node, "click");
    assert_eq!(count.get(), 3, "removing one handle detaches that listener");
    dom.dispatch(other, "click");
    assert_eq!(count.get(), 4, "listeners on other nodes are untouched");
}
