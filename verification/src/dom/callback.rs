//! Cloneable callbacks: component emits and slot builders.
use vstd::prelude::*;
use std::rc::Rc;

verus! {

/// A cloneable event callback used for component emits (`@event` on a component).
/// Wraps a handler; the child calls it to emit a value to the parent. The
/// default callback has no handler and drops what is emitted, so an optional
/// emit prop the parent leaves unlistened is a no-op.
pub struct Callback<F> {
    handler: Option<Rc<F>>,
}

impl<F> Callback<F> {
    /// The wrapped handler, if any.
    pub closed spec fn handler(&self) -> Option<F> {
        match self.handler {
            Some(h) => Some(*h),
            None => None,
        }
    }

    /// Wrap a handler.
    pub fn new(handler: F) -> (r: Self)
        ensures
            r.handler() == Some(handler),
    {
        Callback { handler: Some(Rc::new(handler)) }
    }

    /// Invoke the handler with `value`; a callback without one does nothing.
    pub fn call<T>(&self, value: T)
        where
            F: Fn(T),
        requires
            self.handler() matches Some(f) ==> call_requires(f, (value,)),
        ensures
            self.handler() matches Some(f) ==> call_ensures(f, (value,), ()),
    {
        match &self.handler {
            Some(h) => (**h)(value),
            None => {},
        }
    }
}

impl<F> Clone for Callback<F> {
    /// Another callback sharing the same handler.
    fn clone(&self) -> (r: Self)
        ensures
            r.handler() == self.handler(),
    {
        match &self.handler {
            Some(h) => Callback { handler: Some(Rc::clone(h)) },
            None => Callback { handler: None },
        }
    }
}

impl<F> Default for Callback<F> {
    /// A callback with no handler.
    fn default() -> (r: Self)
        ensures
            r.handler() is None,
    {
        Callback { handler: None }
    }
}

/// A typed, cloneable slot builder. A component's slots struct holds one
/// optional `SlotFn` per slot the parent may fill; the builder receives the
/// backend and the slot's payload and builds the slot's content.
pub struct SlotFn<F> {
    builder: Rc<F>,
}

impl<F> SlotFn<F> {
    /// The wrapped builder.
    pub closed spec fn builder(&self) -> F {
        *self.builder
    }

    pub fn new(builder: F) -> (r: Self)
        ensures
            r.builder() == builder,
    {
        SlotFn { builder: Rc::new(builder) }
    }

    /// Build the slot's content with `data`.
    pub fn render<B, T, N>(&self, backend: B, data: T) -> (r: N)
        where
            F: Fn(B, T) -> N,
        requires
            call_requires(self.builder(), (backend, data)),
        ensures
            call_ensures(self.builder(), (backend, data), r),
    {
        (*self.builder)(backend, data)
    }
}

impl<F> Clone for SlotFn<F> {
    /// Another slot builder sharing the same closure.
    fn clone(&self) -> (r: Self)
        ensures
            r.builder() == self.builder(),
    {
        SlotFn { builder: Rc::clone(&self.builder) }
    }
}

} // verus!
