//! A stand-in for `llama-server`: what it is asked to do, read from its
//! command line, and what it does before it binds. Serving is the binary's.

pub mod options;
pub mod start;

pub use options::{parse, Options, Pacing};
pub use start::{before_bind, ready_now, Beginning};
