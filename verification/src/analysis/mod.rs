//! The analyses, and what they share.

pub mod deref_pin_stability;
pub mod laws;
pub mod missing_unpin_bound;
pub mod origin;
pub mod paths;
pub mod pin_leak_detector;
pub mod provenance;
pub mod safe_pin_unchecked;
pub mod util;
pub mod wrong_unpin_impl;
