//! Maintains the `@Types:` metadata header line in a corpus of CHAT
//! transcript files: directory-level marker files declare the header text
//! that every transcript in that directory (and in descendants without a
//! marker of their own) should carry, and an early-terminating line scan
//! decides whether a given transcript needs its header rewritten.

pub mod marker;
pub mod matcher;
pub mod scan;
pub mod slurp;
pub mod tree;
