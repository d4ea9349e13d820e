//! Span-directed renaming of local bindings.
//!
//! Source text is held once, as bytes, and every syntax node refers into it by a
//! half-open `[lo, hi)` span. Renaming finds the `let` bindings of a name, plans
//! one splice per binding, and rebuilds the enclosing region in one forward pass,
//! copying every byte outside the replaced identifiers verbatim.
use vstd::prelude::*;

pub mod source;
pub mod ast;
pub mod locate;
pub mod plan;
pub mod render;
pub mod rename;
