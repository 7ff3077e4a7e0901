//! Adapter core for caching invocations of the Rust compiler.
//!
//! The adapter classifies a raw command line as cacheable or not, extracts
//! the fields that identify a compilation, derives a deterministic cache key
//! from the command line together with digests of every input, and describes
//! the compilation to replay on a cache miss.  Everything here is pure with
//! respect to the file system: process probes and file reads happen outside
//! and hand their results in as plain values.

pub mod adapter;
pub mod args;
pub mod depinfo;
pub mod digest;
pub mod key;
pub mod parse;
pub mod order;
pub mod strkit;

pub use adapter::{Cacheable, HashResult, Rust, RustCompilation, RustHasher};
pub use parse::{CannotCacheReason, CompilerArguments, ParsedArguments};
