//! Bit-granular addressing over arrays of fixed-width storage elements.
//!
//! The crate names, reads, and mutates arbitrary contiguous ranges of
//! individual bits inside an element array, and stays well-behaved when two
//! such ranges land inside the same element.  Every operation is specified
//! against a bit-by-bit mathematical model and verified against it.

pub mod addr;
pub mod bits;
pub mod codec;
pub mod domain;
pub mod errors;
pub mod index;
pub mod num;
pub mod order;
pub mod ptr;
pub mod radium;
pub mod region;
pub mod widths;
