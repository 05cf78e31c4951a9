//! Generation of C, C# and Python headers for a set of exported functions.
//!
//! Everything lives in [`headers`]: the layout descriptors of the exported
//! types, the [`headers::Definer`] that writes each composite type once, the
//! per-language renderers and the [`headers::Builder`] that drives a run.

pub mod headers;
