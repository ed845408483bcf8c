//! The cargo subcommand: which targets are checked, with which command lines, and when a call of
//! the compiler is analysed.

pub mod args;
pub mod encoding;
pub mod package;
pub mod plan;
pub mod rustc_call;
pub mod target;
