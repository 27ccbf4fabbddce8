//! A read-only lookup, filter, and pagination library over a small
//! in-memory dataset of country records, loaded once and never mutated.
//!
//! The dataset keeps two views over one collection: the records in source
//! order, for listing and offset-based pagination, and an index from id to
//! record, for point lookup. Filters are a closed set of predicates:
//! exact country-code match, name prefix, tag prefix, all compared
//! case-insensitively, and at most one is active per request.

pub mod dataset;
pub mod laws;
pub mod predicate;
pub mod record;
pub mod text;
