//! Escape-time search for colouring a Mandelbrot-style picture.
//!
//! A point of the plane is scored by how soon its orbit passes a bailout
//! test. The orbit itself is the caller's business; this crate holds the
//! search over the outcomes of that test: a bounded count with one early
//! exit, and the integer score that the colouring is computed from.

pub mod escape;
pub mod laws;

pub use escape::{EscapeSearch, Verdict, MAX_ITERATIONS};
