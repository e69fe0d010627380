//! A small fluent builder that assembles a URL from a protocol, a host, a port
//! and a list of query parameters.
//!
//! Nothing is validated and nothing is escaped: every field is rendered exactly
//! as it was given. Query parameters are kept in the order in which their keys
//! were first added, so rendering is deterministic.

pub mod builder;
pub mod decimal;
pub mod query;

pub use builder::URLBuilder;
pub use builder::URLBuilderView;
