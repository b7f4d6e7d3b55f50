//! Launching a server: which binary, where the models are, and how a child
//! says it is ready -- what a launch decides before anything is run.

pub mod binary;
pub mod failure;
pub mod output;
pub mod probe;
pub mod root;

pub use failure::Failure;
