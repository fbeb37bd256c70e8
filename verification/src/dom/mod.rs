//! The DOM-side rendering layer: attribute string builders, event options,
//! the backend abstraction, the element builder and an in-memory backend.

pub mod attrs;
pub mod backend;
pub mod builder;
pub mod callback;
pub mod class;
pub mod element;
pub mod event;
pub mod keyed;
pub mod mock;
pub mod style_list;
