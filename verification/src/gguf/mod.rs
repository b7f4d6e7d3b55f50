//! What a model file says about itself, and why it could not be read.

pub mod fault;
pub mod metadata;

pub use fault::Fault;
