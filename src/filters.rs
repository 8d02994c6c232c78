//! Documentation of the built-in leaf filters.

pub mod cookie;
