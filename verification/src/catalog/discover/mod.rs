//! Every model file under the root that the catalog does not name.
//!
//! The catalog names the models an operator has thought about; the root
//! holds every model they have downloaded. Discovery makes an entry of each
//! file the catalog does not already name, as weights, draft or projector.
//! An entry is on-demand, takes the defaults table, and gets a derived
//! estimate.

pub mod name;
pub mod walk;
