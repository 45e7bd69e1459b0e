//! A catalogue of statically declared metrics.
//!
//! Scopes of metrics are declared one by one, in any order, and resolved into a
//! single tree below one root scope. From the closed tree the library derives the
//! flat namespace of fully qualified metric keys and the storage that resolves a
//! key back to the counter, gauge or histogram that holds its value.

pub mod ast;
pub mod text;
pub mod metric_scope;
pub mod metric_tree;
pub mod metrics;
pub mod prometheus;
pub mod registry;
pub mod scoped_catalogue;
