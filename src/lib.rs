//! Short codes for long URLs: a base-62 code generator, the decisions of the
//! link operations on an atomic counter and a key-value backend, and a link
//! store over an in-process backend.
pub mod backend;
pub mod codec;
pub mod error;
pub mod handler;
pub mod store;
