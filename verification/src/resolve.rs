//! The schema resolver: from a record type's declared metadata — its
//! type-level attributes and, per field, the declared type token and marker
//! attributes — to the resolved [`RecordSchema`], or a generation failure
//! when the table-name attribute is missing or carries an empty value.

use crate::schema::{Field, RecordSchema};
use crate::text::str_eq;
use crate::StorageType;
use vstd::prelude::*;

verus! {

/// One attribute attached to the record type: a name and the value it
/// carries (empty when it carries none).
pub struct TypeAttr {
    pub name: String,
    pub value: String,
}

/// One declared field of the record type: its name, its declared type
/// token, and the marker attributes attached to it.
pub struct FieldDecl {
    pub name: String,
    pub type_token: String,
    pub markers: Vec<String>,
}

/// Why schema resolution failed; either failure aborts generation before
/// any statement or operation exists for the record type.
#[derive(Clone, Copy, PartialEq, Eq, Structural, Debug)]
pub enum SchemaError {
    /// No attribute named `table_name` is attached to the record type.
    MissingTableName,
    /// The first `table_name` attribute carries an empty value.
    EmptyTableName,
}

impl SchemaError {
    /// The failure message, as a build abort would report it.
    pub fn message(&self) -> (r: &'static str)
        ensures
            r@ == self.message_spec(),
    {
        match self {
            SchemaError::MissingTableName => "no attribute 'table_name'",
            SchemaError::EmptyTableName => "attribute 'table_name' has no value",
        }
    }

    pub open spec fn message_spec(&self) -> Seq<char> {
        match self {
            SchemaError::MissingTableName => "no attribute 'table_name'"@,
            SchemaError::EmptyTableName => "attribute 'table_name' has no value"@,
        }
    }
}

/// The value of the first attribute named `table_name`, when one exists.
pub open spec fn resolved_table_name(attrs: Seq<TypeAttr>) -> Option<Seq<char>>
    decreases attrs.len(),
{
    if attrs.len() == 0 {
        None
    } else if attrs[0].name@ == "table_name"@ {
        Some(attrs[0].value@)
    } else {
        resolved_table_name(attrs.drop_first())
    }
}

/// The storage class inferred from a declared type token: exactly the text
/// type maps to TEXT, every other token maps to INTEGER.
pub open spec fn storage_of(type_token: Seq<char>) -> StorageType {
    if type_token == "String"@ {
        StorageType::Text
    } else {
        StorageType::Integer
    }
}

/// Whether the marker named `m` appears in `markers`.
pub open spec fn has_marker(markers: Seq<String>, m: Seq<char>) -> bool {
    exists|i: int| 0 <= i < markers.len() && markers[i]@ == m
}

/// The resolved field of one declaration: same name, storage class from the
/// type token, and the `primary` and `index` markers read independently.
pub open spec fn resolved_field(d: FieldDecl) -> Field {
    Field {
        name: d.name,
        storage_type: storage_of(d.type_token@),
        is_primary: has_marker(d.markers@, "primary"@),
        is_indexed: has_marker(d.markers@, "index"@),
    }
}

/// Whether `markers` holds a marker named `m`.
fn find_marker(markers: &Vec<String>, m: &str) -> (r: bool)
    ensures
        r == has_marker(markers@, m@),
{
    let n = markers.len();
    let mut i: usize = 0;
    while i < n
        invariant
            n == markers@.len(),
            i <= n,
            forall|k: int| 0 <= k < i ==> markers@[k]@ != m@,
        decreases n - i,
    {
        if str_eq(markers[i].as_str(), m) {
            return true;
        }
        i = i + 1;
    }
    false
}

/// Resolve the record schema from the declared metadata.
///
/// Succeeds exactly when a `table_name` attribute is present and its value
/// is non-empty; the schema then carries that value as the table name and
/// one resolved field per declaration, in declaration order. On failure no
/// schema — and so no statement and no operation — exists for the type.
pub fn resolve_schema(type_attrs: &Vec<TypeAttr>, field_decls: Vec<FieldDecl>) -> (r: Result<
    RecordSchema,
    SchemaError,
>)
    ensures
        match r {
            Ok(s) => {
                &&& resolved_table_name(type_attrs@) matches Some(t) && s.table_name@ == t
                &&& s.table_name@.len() > 0
                &&& s.wf()
                &&& s.fields@.len() == field_decls@.len()
                &&& forall|i: int|
                    0 <= i < field_decls@.len() ==> s.fields@[i] == resolved_field(field_decls@[i])
            },
            Err(SchemaError::MissingTableName) => resolved_table_name(type_attrs@) is None,
            Err(SchemaError::EmptyTableName) => resolved_table_name(type_attrs@) matches Some(t)
                && t.len() == 0,
        },
{
    let table_name = match resolve_table_name(type_attrs) {
        Ok(t) => t,
        Err(e) => {
            return Err(e);
        },
    };
    let mut fields: Vec<Field> = Vec::new();
    let n = field_decls.len();
    let mut decls = field_decls;
    // Consume the declarations front to back, preserving declaration order.
    while decls.len() > 0
        invariant
            n == field_decls@.len(),
            fields@.len() + decls@.len() == n,
            decls@ == field_decls@.skip(fields@.len() as int),
            forall|k: int|
                0 <= k < fields@.len() ==> fields@[k] == resolved_field(field_decls@[k]),
        decreases decls@.len(),
    {
        proof {
            assert(decls@[0] == field_decls@[fields@.len() as int]);
            assert(decls@.skip(1) =~= field_decls@.skip(fields@.len() as int + 1));
        }
        let ghost idx: int = fields@.len() as int;
        let d = decls.remove(0);
        proof {
            assert(decls@ =~= field_decls@.skip(idx + 1));
        }
        let is_primary = find_marker(&d.markers, "primary");
        let is_indexed = find_marker(&d.markers, "index");
        let storage_type = if str_eq(d.type_token.as_str(), "String") {
            StorageType::Text
        } else {
            StorageType::Integer
        };
        let f = Field { name: d.name, storage_type, is_primary, is_indexed };
        proof {
            assert(f == resolved_field(field_decls@[idx]));
        }
        fields.push(f);
    }
    Ok(RecordSchema { table_name, fields })
}

/// Extract the table name: the value of the first `table_name` attribute.
pub fn resolve_table_name(type_attrs: &Vec<TypeAttr>) -> (r: Result<String, SchemaError>)
    ensures
        match r {
            Ok(t) => resolved_table_name(type_attrs@) matches Some(v) && t@ == v && v.len() > 0,
            Err(SchemaError::MissingTableName) => resolved_table_name(type_attrs@) is None,
            Err(SchemaError::EmptyTableName) => resolved_table_name(type_attrs@) matches Some(v)
                && v.len() == 0,
        },
{
    let n = type_attrs.len();
    let mut i: usize = 0;
    proof {
        assert(type_attrs@.skip(0) =~= type_attrs@);
    }
    while i < n
        invariant
            n == type_attrs@.len(),
            i <= n,
            resolved_table_name(type_attrs@) == resolved_table_name(type_attrs@.skip(i as int)),
            forall|k: int| 0 <= k < i ==> type_attrs@[k].name@ != "table_name"@,
        decreases n - i,
    {
        proof {
            assert(type_attrs@.skip(i as int).len() > 0);
            assert(type_attrs@.skip(i as int)[0] == type_attrs@[i as int]);
            assert(type_attrs@.skip(i as int).drop_first() =~= type_attrs@.skip(i + 1 as int));
        }
        if str_eq(type_attrs[i].name.as_str(), "table_name") {
            let value = type_attrs[i].value.clone();
            if value.as_str().unicode_len() == 0 {
                return Err(SchemaError::EmptyTableName);
            }
            return Ok(value);
        }
        i = i + 1;
    }
    proof {
        assert(type_attrs@.skip(n as int).len() == 0);
    }
    Err(SchemaError::MissingTableName)
}

} // verus!
