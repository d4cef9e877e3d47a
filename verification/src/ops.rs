//! Which mutations exist, and where a file admits them.
pub mod collect;
pub mod registry;
