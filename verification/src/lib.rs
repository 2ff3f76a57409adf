//! Common types of the G1 graph store and its query pipeline: a Datalog-style
//! language with stratified negation, its lowering to a nameless form, the rules
//! that a query must meet, and a bottom-up solver over facts held in memory.
//!
//! From a text to its answers:
//!
//! - [`lexer`] and [`lang`] read a text into a query with the places of its
//!   parts; [`query`] holds the same queries without places and writes them out
//!   again, and [`roundtrip`] shows that what is written is read back;
//! - [`lowering`] turns a query into its nameless form ([`nameless`]), with the
//!   predicates in the order of their strata ([`stratify`]);
//! - [`validate`] holds a nameless query to the rules;
//! - [`semantics`] says what the answers to a valid query are, and
//!   [`naive_solve`] computes them; [`facts`] does so over a source of facts.
//!
//! Beside it stands the form of a query that front-ends build through visitors
//! ([`visitors`], [`pool`]), with a span on every part ([`validated`],
//! [`map_span`]); [`proc_macro`] reads a query out of the tokens of a host
//! program. [`command`] reads the lines of a REPL, [`hash`] the identifiers of
//! blobs, and [`text`] holds what the others need of characters and numbers.

pub mod command;
pub mod facts;
pub mod hash;
pub mod lang;
pub mod lexer;
pub mod lowering;
pub mod map_span;
pub mod naive_solve;
pub mod nameless;
pub mod pool;
pub mod proc_macro;
pub mod query;
pub mod roundtrip;
pub mod semantics;
pub mod stratify;
pub mod text;
pub mod validate;
pub mod validated;
pub mod visitors;
