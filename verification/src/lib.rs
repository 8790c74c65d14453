//! An in-memory, fixed-layout row store paired with a query engine that
//! filters and multi-key-sorts the rows and memoizes the last query result.
//!
//! The store holds rows of a fixed shape ([`record::Record`]), addressable by
//! a stable row index. A query takes a filter specification (per-column
//! conjunctive predicates) and a sort specification (an ordered list of
//! per-column sort keys) and yields the ordered sequence of surviving row
//! indices. Result buffers are handed to the host through an
//! ownership-transferring handle table with an explicit release operation.

pub mod engine;
pub mod order;
pub mod record;
pub mod store;
pub mod text;
