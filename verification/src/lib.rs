//! History query and aggregation engine.
//!
//! Compiles loosely-typed filter input into a parameterized query plan,
//! evaluates that plan over navigation-history records, derives site names
//! from raw URLs, and ranks sites by aggregated visit volume. The single
//! underlying SQLite connection is owned by a connection manager that
//! supports lazy opening, first-run seeding, and hot swap to another file.

use vstd::prelude::*;

pub mod config;
pub mod db;
pub mod domain;
pub mod engine;
pub mod filter;
pub mod text;

verus! {

} // verus!
