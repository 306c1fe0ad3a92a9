//! A storage-engine-agnostic boolean filter predicate.
//!
//! A [`query::Query`] tree is built with the builder operations on
//! [`query::Query`] or parsed from the compact textual grammar by
//! [`query::parse::from_str`].  The tree is then compiled either into a
//! nested filter document for a document store ([`mongo::to_bson`]) or
//! into a parameterized WHERE clause for a relational engine
//! ([`postgres::to_where`]).

pub mod query;
pub mod mongo;
pub mod postgres;
