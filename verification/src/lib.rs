//! Reader for S-expression source: it consumes a stream of spanned tokens and
//! produces a source-position-annotated tree of atoms, lists, dotted pairs and
//! desugared quote forms, together with structured, non-fatal diagnostics.

pub mod span;
pub mod token;
pub mod sexpr;
pub mod read;
pub mod laws;
pub mod list;
pub mod value;
pub mod interp;
pub mod serialize;
