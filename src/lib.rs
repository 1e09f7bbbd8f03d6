//! Tags for files, stored as extended attributes under a namespace of their own.
//!
//! The library decides: it encodes and decodes tags, chooses which attributes a
//! tag operation reads, writes or removes, and filters the entries of a directory
//! walk by their tags. The attribute system calls themselves are made by the caller.
use vstd::prelude::*;

pub mod error;
pub mod number;
pub mod opt;
pub mod order;
pub mod query;
pub mod store;
pub mod tag;
pub mod util;
pub mod walk;
