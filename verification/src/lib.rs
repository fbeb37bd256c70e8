//! A verified core for Vue-style single-file components in Rust: splitting
//! `.vrs` sources, scoping CSS, parsing templates, analysing directives, and
//! the DOM-side string builders and in-memory backend.

pub mod compiler;
pub mod dom;
pub mod sfc;
pub mod style;
pub mod text;

pub use dom::attrs::IntoAttrs;
pub use dom::backend::{Backend, DomNode};
pub use dom::builder::{IsSet, Unset};
pub use dom::callback::{Callback, SlotFn};
pub use dom::class::ClassList;
pub use dom::element::{El, RawHtml};
pub use dom::event::EventOptions;
pub use dom::mock::{DispatchOutcome, MockDom, MockEvent};
pub use dom::style_list::StyleList;
pub use compiler::tokens::SourceTokens;
pub use sfc::{split_sfc, CompileError, Sfc};
pub use style::{scope_css, scope_id};
