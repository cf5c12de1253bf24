//! Unbounded FIFO queues built as a chain of nodes behind a dummy node.
//!
//! Nodes live in an arena and refer to their successors by index, so
//! linking, unlinking and reclaiming a node are plain index updates whose
//! correctness Verus checks against the abstract sequence of queued values.

pub mod node;
pub mod lockfree;
pub mod twolock;
pub mod model;
pub mod laws;

pub use node::Node;
pub use twolock::TwoLockQueue;
pub use lockfree::LockFreeQueue;
