//! The filesystem: the layout of stored files, the directory index and the
//! answer to each request.

pub mod bare;
pub mod bare_laws;
pub mod blocks;
pub mod content;
pub mod entry;
pub mod inner;
pub mod laws;
pub mod ops;
pub mod store;
pub mod tables;
pub mod tree;
