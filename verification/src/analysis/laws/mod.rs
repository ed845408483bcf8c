//! What the analyses promise, stated over a crate as it is given.

pub mod common;
pub mod deref_pin_stability;
pub mod missing_unpin_bound;
pub mod pin_leak_detector;
pub mod safe_pin_unchecked;
pub mod wrong_unpin_impl;
