//! A synchronisation engine between a straight-line shader function body
//! (an arena of expressions and an ordered list of statements) and an
//! editable graph of nodes, pins and links.
//!
//! [`node`] holds the pin allocator and the nodes, [`ir`] the program
//! representation, [`graph`] the graph of one function, [`projection`] the
//! pass that builds a graph from a function, [`editor`] the controller that
//! owns one graph per function and applies edits, and [`model`] what the
//! controller's operations mean.

pub mod editor;
pub mod error;
pub mod graph;
pub mod ir;
pub mod model;
pub mod node;
pub mod projection;

pub use crate::editor::{Editor, Interaction};
pub use crate::error::EditorError;
pub use crate::graph::FunctionData;
pub use crate::ir::{
    BinaryOperator, Expression, ExpressionKind, Function, FunctionHandle, Module, Statement,
};
pub use crate::node::{IdTracker, Node, NodeLayout, NodeType, PinAttribute, PinRole, Update};
