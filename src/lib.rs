//! Typed SQL schemas, dialect-aware rendering, and migration generation.
pub mod introspect;
pub mod laws;
pub mod migrate;
pub mod operation;
pub mod order;
pub mod schema;
pub mod types;
pub mod util;

use vstd::prelude::*;

verus! {

/// A target SQL engine's lexical variant.
#[derive(Debug, Clone, Copy, PartialEq, Eq, Structural)]
pub enum Dialect {
    Postgres,
    Mysql,
    Sqlite,
}

} // verus!
