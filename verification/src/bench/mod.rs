//! How an entry is asked how fast it runs: which endpoint answers for it, the
//! fixed work it is asked to do, and where the answer's body begins.

pub mod rate;

pub use rate::{answers, Answers};
