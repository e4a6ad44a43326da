//! The failures that the world reports to its callers.

use vstd::prelude::*;

verus! {

/// Why an operation on the world was refused.
#[derive(Clone, Copy, Debug, PartialEq, Eq, Structural)]
pub enum WorldError {
    /// A stale or unknown entity, node or component was named.
    NotFound,
    /// A scene-graph operation named a parent that is not a node of the graph.
    InvalidParent,
    /// The operation needs a component that the entity does not hold.
    MissingComponent,
    /// Camera matrices were asked for while no camera is enabled.
    NoActiveCamera,
}

impl WorldError {
    /// A short text for logs and messages.
    pub fn message(&self) -> (text: &'static str)
        ensures
            text@ == Self::message_text(*self)@,
    {
        match self {
            WorldError::NotFound => "entity or component not found",
            WorldError::InvalidParent => "parent is not a node of this scene graph",
            WorldError::MissingComponent => "entity lacks a required component",
            WorldError::NoActiveCamera => "no enabled camera in the world",
        }
    }

    /// The text that `message` gives for each failure.
    pub open spec fn message_text(e: WorldError) -> &'static str {
        match e {
            WorldError::NotFound => "entity or component not found",
            WorldError::InvalidParent => "parent is not a node of this scene graph",
            WorldError::MissingComponent => "entity lacks a required component",
            WorldError::NoActiveCamera => "no enabled camera in the world",
        }
    }
}

} // verus!
