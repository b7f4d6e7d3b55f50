//! The verified core of a model router: admission, the catalog's arithmetic,
//! and the small grammars the router reads and writes.

pub mod access;
pub mod admission;
pub mod bench;
pub mod catalog;
pub mod ending;
pub mod flags;
pub mod gguf;
pub mod json;
pub mod launch;
pub mod memory;
pub mod proxy;
pub mod settings;
pub mod stub;
pub mod text;
