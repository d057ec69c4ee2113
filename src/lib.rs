//! A content-addressed blob store: values are hashed by a canonical, name-free encoding of
//! their structure and stored under that hash, partitioned by the name of their type, in
//! memory or in an SQLite file.

pub mod content_hash;
pub mod entity;
pub mod hashing;
pub mod memory;
pub mod model;
pub mod sqlite;
pub mod store;
pub mod ty;
pub mod util;
pub mod value;

pub use content_hash::ContentHash;
pub use hashing::{Canonical, hash};
pub use ty::{Ty, Vanth};
