//! Deciding what may be loaded, and what must be unloaded first.
//!
//! This module touches no process and no socket. It takes a budget, what is
//! loaded now, what is wanted, and what the device has free, and returns a
//! decision; acting on that decision belongs to the caller.
//!
//! A **candidate** is a loaded model the router may unload: on-demand, and
//! with nothing reading from it. A resident model is never a candidate, and
//! neither is a busy one. **The coldest candidate goes first**, except that a
//! guest -- a model loaded into free room -- gives its room back before any
//! other model, the coldest guest first.
//!
//! Two questions are asked of every start, and both have to say yes. The
//! **ledger** is the budget: a ceiling on what the loaded models cost. The
//! **device** is what the machine reports free right now; a model that puts
//! its weights on the device has to fit in that room too. Where the machine
//! cannot be asked, the device question is not asked.

pub mod budget;
pub mod order;
pub mod subject;

pub use budget::{Budget, Decision};
pub use subject::{Loaded, Wanted};
