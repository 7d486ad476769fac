//! Schema-driven SQL generation and execution for simple record stores.
//!
//! A record type is described once, as a [`schema::RecordSchema`] value: a
//! table name plus an ordered list of fields, each classified as TEXT or
//! INTEGER storage and optionally marked as primary key or indexed. The
//! emitters derive the four data-access statements (table creation, index
//! creation, filtered retrieval, insertion) from that single ordered field
//! list, so that column order, select-list order and bind order can never
//! diverge.

use vstd::prelude::*;

pub mod emit;
pub mod filter;
pub mod human;
pub mod ops;
pub mod resolve;
pub mod schema;
pub mod store;
pub mod text;

verus! {

/// The storage class of one column: SQLite `TEXT` or `INTEGER`.
#[derive(Clone, Copy, PartialEq, Eq, Structural, Debug)]
pub enum StorageType {
    Text,
    Integer,
}

} // verus!
