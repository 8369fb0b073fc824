//! Translation of fish syntax trees into Bash text.

pub mod emitter;
pub mod ir;
pub mod lowering;
pub mod quoting;
