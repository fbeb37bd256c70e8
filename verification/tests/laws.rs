//! The library's laws, each checked on concrete values.

use std::cell::Cell;
use std::rc::Rc;
use vue_rs::dom::event::listener_fires;
use vue_rs::compiler::codegen::{generate, GenError};
use vue_rs::compiler::scan::split_top_level;
use vue_rs::compiler::script::rewrite_script_text;
use vue_rs::{scope_css, scope_id, split_sfc, Backend, El, MockDom};

type Dom = MockDom<Box<dyn Fn(&str)>>;

#[test]
fn a_slot_used_twice_is_recorded_once_in_first_seen_order() {
    let template = r#"<div><slot name="b" /><slot /><slot name="b" /></div>"#;
    let (_, slots) = generate(template, None, Vec::new()).ok().unwrap();
    assert_eq!(slots, vec![("b".to_string(), false), ("default".to_string(), false)]);
}

#[test]
fn rewriting_a_script_twice_is_rewriting_it_once() {
    let src = "use vue_rs_reactive::ref; let count = ref(0); watchEffect(move || {}); let ref x = 1;";
    let once = rewrite_script_text(src).ok().unwrap();
    let twice = rewrite_script_text(&once).ok().unwrap();
    assert_eq!(once, twice);
    assert!(once.contains(":: signal ;"), "{once}");
    assert!(once.contains("signal (0 )"), "{once}");
    assert!(once.contains("effect (move"), "{once}");
    assert!(once.contains("let ref x"));
}

#[test]
fn top_level_split_joins_back_to_its_input() {
    let src = "a, f(b, c), [d, e], 'x,y', { g: h, i: j }";
    let parts = split_top_level(src, ',');
    assert_eq!(parts.len(), 5);
    assert_eq!(parts.join(","), src);
}

#[test]
fn an_attribute_reads_back_its_last_write() {
    let mut dom = Dom::new();
    let node = El::new(&mut dom, "div").finish();
    dom.set_attribute(&node, "id", "one");
    dom.set_attribute(&node, "title", "t");
    dom.set_attribute(&node, "id", "two");
    assert_eq!(dom.to_html(node), r#"<div id="two" title="t"></div>"#);
    dom.remove_attribute(&node, "id");
    assert_eq!(dom.to_html(node), r#"<div title="t"></div>"#);
}

#[test]
fn inserting_a_child_already_present_moves_it() {
    let mut dom = Dom::new();
    let a = dom.create_text("a");
    let b = dom.create_text("b");
    let c = dom.create_text("c");
    let parent = dom.create_element("p");
    dom.append_child(&parent, &a);
    dom.append_child(&parent, &b);
    dom.append_child(&parent, &c);
    dom.insert_before(&parent, &c, &a);
    assert_eq!(dom.to_html(parent), "<p>cab</p>");
}

#[test]
fn a_once_listener_is_spent_by_its_first_dispatch() {
    let hits = Rc::new(Cell::new(0));
    let h = hits.clone();
    let mut dom = Dom::new();
    let node = dom.create_element("button");
    let opts = vue_rs::EventOptions { once: true, ..vue_rs::EventOptions::none() };
    dom.add_event_listener(&node, "click", opts, Box::new(move |_: &str| h.set(h.get() + 1)));
    dom.dispatch(node, "click");
    dom.dispatch(node, "click");
    assert_eq!(hits.get(), 1);
}

#[test]
fn scoping_inserts_the_marker_once_per_selector() {
    let out = scope_css("a:hover, .x > p{ color: red; }", "abc");
    assert_eq!(out, "a[data-v-abc]:hover, .x > p[data-v-abc]{ color: red; }");
    assert_eq!(out.replace("[data-v-abc]", ""), "a:hover, .x > p{ color: red; }");
}

#[test]
fn a_scope_id_is_eight_lowercase_hex_digits() {
    for seed in ["", "src/App.vrs", "components/Counter.vrs"] {
        let id = scope_id(seed);
        assert_eq!(id.len(), 8);
        assert!(id.chars().all(|c| c.is_ascii_digit() || ('a'..='f').contains(&c)));
        assert_eq!(id, scope_id(seed));
    }
}

#[test]
fn split_blocks_are_pieces_of_the_source() {
    let source = "<template>\n  <p>hi</p>\n</template>\n<script lang=\"rust\">\nlet x = 1;\n</script>\n<style scoped>\np { color: red; }\n</style>\n";
    let sfc = split_sfc(source).ok().unwrap();
    assert!(source.contains(sfc.template.as_str()));
    assert!(source.contains(sfc.script.as_deref().unwrap()));
    assert!(source.contains(sfc.style.as_deref().unwrap()));
}

#[test]
fn whitespace_only_text_leaves_no_node_and_inner_spacing_stays() {
    let (text, _) = generate("<p>\n   \n</p>", None, Vec::new()).ok().unwrap();
    assert_eq!(text, r#"El::new(__backend.clone(), "p") .finish()"#);
    let (text, _) = generate("<p>  a {{ b }} c  </p>", None, Vec::new()).ok().unwrap();
    assert!(text.contains(r#".text("a ")"#));
    assert!(text.contains(r#".text(" c")"#));
}

#[test]
fn a_scope_changes_neither_success_nor_slots_nor_errors() {
    let ok = r#"<div class="a"><slot name="x" /><p v-if="c">y</p></div>"#;
    let (plain, plain_slots) = generate(ok, None, Vec::new()).ok().unwrap();
    let (scoped, scoped_slots) = generate(ok, Some("abc"), Vec::new()).ok().unwrap();
    assert_eq!(plain_slots, scoped_slots);
    assert_ne!(plain, scoped);
    assert_eq!(scoped.replace(r#" .attr("data-v-abc", "")"#, ""), plain);
    let bad = r#"<div><p v-else>y</p></div>"#;
    let e1 = generate(bad, None, Vec::new()).err().unwrap();
    let e2 = generate(bad, Some("abc"), Vec::new()).err().unwrap();
    match (e1, e2) {
        (GenError::Message(m1), GenError::Message(m2)) => assert_eq!(m1, m2),
        _ => panic!("both lowerings should stop with a message"),
    }
}

#[test]
fn compiled_stream_is_the_lexing_of_the_generated_code() {
    let t = r#"<div class="a"><p v-if="c()">{{ x }}</p></div>"#;
    let (text, _) = generate(t, Some("abc"), Vec::new()).ok().unwrap();
    let out = vue_rs::compiler::compile::compile_template_scoped(t, "abc").ok().unwrap();
    let lexed: proc_macro2::TokenStream = text.parse().unwrap();
    assert_eq!(out.stream().to_string(), lexed.to_string());
}

#[test]
fn listener_guards_decide_from_plain_facts() {
    let none = vue_rs::EventOptions::none();
    assert!(listener_fires(&none, false, None, None, [true, true, true, true]));
    let self_only = vue_rs::EventOptions { self_only: true, ..none };
    assert!(!listener_fires(&self_only, false, None, None, [false; 4]));
    assert!(listener_fires(&self_only, true, None, None, [false; 4]));
    let enter = vue_rs::EventOptions { keys: &["Enter"], ..none };
    assert!(listener_fires(&enter, false, Some("Enter"), None, [false; 4]));
    assert!(!listener_fires(&enter, false, Some("a"), None, [false; 4]));
    assert!(!listener_fires(&enter, false, None, None, [false; 4]));
    let right = vue_rs::EventOptions { buttons: &[2], ..none };
    assert!(listener_fires(&right, false, None, Some(2), [false; 4]));
    assert!(!listener_fires(&right, false, None, Some(0), [false; 4]));
    let ctrl_exact = vue_rs::EventOptions { ctrl: true, exact: true, ..none };
    assert!(listener_fires(&ctrl_exact, false, None, None, [true, false, false, false]));
    assert!(!listener_fires(&ctrl_exact, false, None, None, [true, false, true, false]));
    assert!(!listener_fires(&ctrl_exact, false, None, None, [false, false, false, false]));
}

#[test]
fn a_callback_and_its_clones_share_one_handler_and_the_default_drops_values() {
    let hits = Rc::new(Cell::new(0));
    let h = hits.clone();
    let c = vue_rs::Callback::new(move |v: i32| h.set(h.get() + v));
    let d = c.clone();
    c.call(2);
    d.call(3);
    assert_eq!(hits.get(), 5);
    let none: vue_rs::Callback<fn(i32)> = Default::default();
    none.call(7);
    assert_eq!(hits.get(), 5);
}

#[test]
fn a_dispatched_value_reaches_the_handler() {
    let got = Rc::new(std::cell::RefCell::new(String::new()));
    let sink = got.clone();
    let mut dom = Dom::new();
    let node = dom.create_element("input");
    dom.add_event_listener(&node, "input", vue_rs::EventOptions::none(),
        Box::new(move |v: &str| *sink.borrow_mut() = v.to_string()));
    dom.dispatch_value(node, "input", "hello");
    assert_eq!(*got.borrow(), "hello");
}
