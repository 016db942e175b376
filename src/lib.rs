//! Evaluation of a compiled computation graph by three parties on a ring.
//!
//! Each party runs the local kernel on every node; at a synchronization node
//! it sends its value to, or takes a value from, one of its two ring
//! neighbours, as the node's send annotations say. Before evaluation, each
//! party's inputs are redacted so that it never holds another party's secret.

pub mod bindings;
pub mod channels;
pub mod evaluator;
pub mod exchange;
pub mod redact;
pub mod ring;
pub mod tags;

pub use channels::Channels;
pub use evaluator::Evaluator;
