//! An encrypted filesystem whose contents, file names and directory index are
//! sealed under a master key that is wrapped into independent key slots.
//!
//! The library holds the logic: the key hierarchy, the volume headers, the
//! directory index, the block layout of file contents and the decisions behind
//! each filesystem request. It performs no input or output. Bytes that were
//! read from disk come in as arguments and bytes to be written go out as
//! results.

pub mod cli;
pub mod codec;
pub mod commands;
pub mod crypto;
pub mod error;
pub mod fs;
pub mod laws;
pub mod primitives;
pub mod rekey;
pub mod text;
