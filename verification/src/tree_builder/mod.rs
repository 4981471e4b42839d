//! The tree builder's vocabulary: events and attributes of built nodes, and
//! the traits a document model implements to receive them.

use std::fmt::Debug;
use std::hash::Hash;

use vstd::prelude::*;

verus! {

/// The traits any type that stands for an event payload has: events are
/// values that can be copied, compared and hashed.
pub trait IEventPayload: Clone + Eq + Hash + PartialEq + Debug {}

impl<TTarget> IEventPayload for TTarget where TTarget: Clone + Eq + Hash + PartialEq + Debug {}

/// The actions an element can observe.
#[derive(Clone, Debug, PartialEq, Eq, PartialOrd, Ord)]
pub enum EventKinds {
    /// The element was clicked.
    OnClick,
}

/// A property of an element: a `key=value` pair of the user's, or an event
/// kind with the payload it sends.
#[derive(Clone, Debug, PartialEq, Eq, PartialOrd, Ord)]
pub enum Attributes<'a, TEvents> where TEvents: IEventPayload {
    Custom { key: &'a str, value: &'a str },
    Event { kind: EventKinds, payload: TEvents },
}

pub enum TreeSinkEvents {
    Element(),
}

/// Settings of a tree builder.
#[derive(Clone, Copy, Debug, Default, PartialEq, Eq)]
pub struct TreeBuilderOptions {}

/// What a parser calls to build a document model.
pub trait TreeSink {
    /// A reference to a node of the model.
    type Handle: Clone;

    /// What the finished model is.
    type Output;

    /// Consumes the sink and gives the finished model.
    fn finish(self) -> Self::Output;

    /// A handle to the root node.
    fn get_root(&mut self) -> Self::Handle;

    /// Registers an element named `name` and gives its handle.
    fn create_element(&mut self, name: &str) -> Self::Handle;
}

/// Observes the handles a builder works with.
pub trait Tracer {
    type Handle;

    fn trace_handle(&self, node: &Self::Handle);
}

} // verus!
