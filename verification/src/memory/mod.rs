//! What the machine says about its memory: device memory as a whole, what one
//! child holds once it has loaded, and the probe that answers both.

pub mod figures;
pub mod probe;
pub mod reading;

pub use figures::{DeviceMemory, Measurement};
pub use probe::{Fixed, Probe};
