//! Verified core of two small command-line text utilities: a `cat`-like
//! tool that echoes lines with optional numbering, and a `head`-like tool
//! that prints the leading portion of a file by line count or byte count.
//!
//! The library holds the argument validation and the rendering logic; the
//! thin CLI shell around it (argument collection and file I/O) lives in the
//! accompanying application crate.

pub mod cat;
pub mod head;
