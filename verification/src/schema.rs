//! The resolved description of one record type: a table name and an ordered
//! field list. Field order is declaration order and is the single source of
//! truth shared by every emitter.

use crate::StorageType;
use vstd::prelude::*;

verus! {

/// One column of a record: its name, storage class, and markers.
#[derive(Debug)]
pub struct Field {
    pub name: String,
    pub storage_type: StorageType,
    pub is_primary: bool,
    pub is_indexed: bool,
}

/// A resolved record schema: the table name and the declared fields, in
/// declaration order.
#[derive(Debug)]
pub struct RecordSchema {
    pub table_name: String,
    pub fields: Vec<Field>,
}

impl RecordSchema {
    /// A schema is well formed when its table name is non-empty.
    pub open spec fn wf(&self) -> bool {
        self.table_name@.len() > 0
    }
}

} // verus!
