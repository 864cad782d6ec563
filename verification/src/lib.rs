//! An in-memory book store with a verified HTTP request dispatcher.
//!
//! The store keeps records in insertion order under pairwise-distinct,
//! monotonically allocated identifiers.  The dispatcher maps an HTTP method,
//! path and body onto store operations, doing its own JSON decoding and
//! encoding over plain bytes, so the whole request step is specified as a
//! pure function of the store model and the request.

use vstd::prelude::*;

pub mod book;
pub mod decode;
pub mod digits;
pub mod encode;
pub mod router;
pub mod store;

verus! {

/// The identifier assigned to the first record a fresh store creates.
pub const FIRST_ID: u64 = 1;

} // verus!
