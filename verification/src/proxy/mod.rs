//! What the router decides about the requests it serves: the line for room,
//! who may call it, what a refusal says, and what it reports.

pub use crate::access::{Access, Head};

pub mod answers;
pub mod listen;
pub mod metrics;
pub mod permits;
pub mod queue;
pub mod refusal;
pub mod reload;
pub mod reply;
pub mod room;
pub mod shared;
pub mod start;
pub mod table;

pub use queue::Queue;
pub use reload::Source;
