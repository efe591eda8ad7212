//! Planning core of a SQL-on-distributed-dataframes engine.
//!
//! The crate takes an already-parsed SQL statement together with a catalog of
//! known schemas, tables and functions, and produces a validated, typed,
//! optimized logical query plan: a tree of relational-algebra operators ready
//! to be handed to an external distributed execution engine.
//!
//! The pieces, leaves first:
//! * [`types`] — the internal relational type representation and the
//!   coercion / promotion rules between types;
//! * [`schema`] — ordered, uniquely-named column lists;
//! * [`catalog`] — the registry of namespaces, tables, functions and
//!   table statistics;
//! * [`expr`] — the typed expression intermediate representation;
//! * [`plan`] — logical plan operators and the plan builder;
//! * [`optimizer`] — the rule-based plan rewriter;
//! * [`context`] — the façade that owns a catalog and drives planning.

pub mod catalog;
pub mod context;
pub mod error;
pub mod expr;
pub mod optimizer;
pub mod plan;
pub mod schema;
pub mod types;
