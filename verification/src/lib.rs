//! Byte search over slices, with the positions of a needle stated as a
//! mathematical sequence, and the property checks that hold the search
//! routines to a naive scan.

pub mod positions;
pub mod search;
pub mod etna;
pub mod text;
pub mod json;
pub mod harness;
pub mod laws;

pub use search::{memchr, memchr_iter, memrchr, memrchr_iter};
