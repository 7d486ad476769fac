//! The four generated operations of a record schema: table creation, index
//! creation, filtered retrieval, and insertion. Each derives its statement
//! text from the schema's one ordered field list and propagates the store's
//! errors unchanged.

use crate::emit::{create_table_sql, index_sqls, index_sqls_spec, insert_sql, select_stmt};
use crate::schema::RecordSchema;
use crate::store::{exec_sql, query_rows, SqlValue};
use crate::text::{lemma_lex_le_refl, lemma_lex_le_total, lemma_lex_le_trans, lex_le, lex_le_exec};
use crate::StorageType;
use vstd::prelude::*;

verus! {

broadcast use vstd::seq_lib::group_to_multiset_ensures;

/// One record instance of a schema: its field values, positionally — value
/// `i` belongs to field `i` of the schema, in declaration order.
#[derive(Clone, Debug, PartialEq)]
pub struct Record {
    pub values: Vec<SqlValue>,
}

/// A failure of a generated operation.
#[derive(Debug)]
pub enum DbError {
    /// The store reported an error; it is carried unchanged.
    Store(rusqlite::Error),
    /// A retrieved value's storage class did not match the schema's storage
    /// class for its column, at the given row and column position.
    ColumnType { row: usize, column: usize },
}

/// Whether a stored value lies in the given storage class.
pub open spec fn value_matches(v: SqlValue, t: StorageType) -> bool {
    match v {
        SqlValue::Text(_) => t is Text,
        SqlValue::Integer(_) => t is Integer,
    }
}

/// Whether a record instance fits its schema: one value per field, each in
/// the field's storage class, in declaration order.
pub open spec fn record_matches_schema(s: RecordSchema, rec: Record) -> bool {
    &&& rec.values@.len() == s.fields@.len()
    &&& forall|i: int|
        0 <= i < s.fields@.len() ==> value_matches(#[trigger] rec.values@[i], s.fields@[i].storage_type)
}

/// Execute the idempotent table-creation statement for `schema` against the
/// store; the store's error, if any, is propagated unchanged.
pub fn create_table(schema: &RecordSchema, conn: &rusqlite::Connection) -> (r: Result<(), DbError>)
    ensures
        r matches Err(e) ==> e is Store,
{
    let sql = create_table_sql(schema);
    let no_params: Vec<SqlValue> = Vec::new();
    match exec_sql(conn, sql.as_str(), &no_params) {
        Ok(_) => Ok(()),
        Err(e) => Err(DbError::Store(e)),
    }
}

/// Execute the idempotent index-creation statements for `schema` against
/// the store, one per indexed field, in declaration order. The first
/// failure is propagated unchanged and the statements after it are not
/// executed. A schema with no indexed field has no statement to execute:
/// the store is not consulted and the call succeeds.
pub fn create_indexes(schema: &RecordSchema, conn: &rusqlite::Connection) -> (r: Result<
    (),
    DbError,
>)
    ensures
        r matches Err(e) ==> e is Store,
        index_sqls_spec(schema.table_name@, schema.fields@).len() == 0 ==> r is Ok,
{
    let sqls = index_sqls(schema);
    let no_params: Vec<SqlValue> = Vec::new();
    let n = sqls.len();
    let mut i: usize = 0;
    while i < n
        invariant
            n == sqls@.len(),
            sqls.deep_view() == index_sqls_spec(schema.table_name@, schema.fields@),
            i <= n,
        decreases n - i,
    {
        match exec_sql(conn, sqls[i].as_str(), &no_params) {
            Ok(_) => {},
            Err(e) => {
                return Err(DbError::Store(e));
            },
        }
        i = i + 1;
    }
    Ok(())
}

/// Turn one retrieved row into a record instance: value `column` of the row
/// becomes field `column` of the record, in declaration order, after its
/// storage class is checked against the schema. Succeeds exactly when every
/// value lies in its column's storage class, and then returns the row's
/// values unchanged; `row_idx` only names the row in the error.
pub fn row_to_record(schema: &RecordSchema, row: Vec<SqlValue>, row_idx: usize) -> (r: Result<
    Record,
    DbError,
>)
    requires
        row@.len() == schema.fields@.len(),
    ensures
        match r {
            Ok(rec) => rec.values@ == row@ && record_matches_schema(*schema, rec),
            Err(e) => e matches DbError::ColumnType { row: ri, column: ci } && ri == row_idx && 0
                <= ci < schema.fields@.len() && !value_matches(
                row@[ci as int],
                schema.fields@[ci as int].storage_type,
            ),
        },
{
    let n = schema.fields.len();
    let mut i: usize = 0;
    while i < n
        invariant
            n == schema.fields@.len(),
            row@.len() == n,
            i <= n,
            forall|k: int|
                0 <= k < i ==> value_matches(#[trigger] row@[k], schema.fields@[k].storage_type),
        decreases n - i,
    {
        let fits = match (&row[i], schema.fields[i].storage_type) {
            (SqlValue::Text(_), StorageType::Text) => true,
            (SqlValue::Integer(_), StorageType::Integer) => true,
            _ => false,
        };
        if !fits {
            return Err(DbError::ColumnType { row: row_idx, column: i });
        }
        i = i + 1;
    }
    Ok(Record { values: row })
}

/// Execute the retrieval statement for `schema` against the store: the base
/// select with the caller's `filter` fragment appended verbatim after one
/// space when non-empty, and `params` bound positionally. On success every
/// returned record fits the schema, its values mapped from the row's
/// columns in declaration order; a store failure or a value outside its
/// column's storage class aborts the whole query, the store's error
/// propagated unchanged.
pub fn select(
    schema: &RecordSchema,
    conn: &rusqlite::Connection,
    filter: &str,
    params: &Vec<SqlValue>,
) -> (r: Result<Vec<Record>, DbError>)
    ensures
        r matches Ok(recs) ==> forall|j: int|
            0 <= j < recs@.len() ==> record_matches_schema(*schema, #[trigger] recs@[j]),
        r matches Err(e) ==> e is Store || e is ColumnType,
{
    let sql = select_stmt(schema, filter);
    let width = schema.fields.len();
    let mut rows = match query_rows(conn, sql.as_str(), params, width) {
        Ok(rows) => rows,
        Err(e) => {
            return Err(DbError::Store(e));
        },
    };
    let mut records: Vec<Record> = Vec::new();
    while rows.len() > 0
        invariant
            forall|j: int| 0 <= j < rows@.len() ==> (#[trigger] rows@[j])@.len() == width as nat,
            width == schema.fields@.len(),
            forall|j: int|
                0 <= j < records@.len() ==> record_matches_schema(*schema, #[trigger] records@[j]),
        decreases rows@.len(),
    {
        let row = rows.remove(0);
        match row_to_record(schema, row, records.len()) {
            Ok(rec) => records.push(rec),
            Err(e) => {
                return Err(e);
            },
        }
    }
    Ok(records)
}

/// The listing key of a record: the text of its first value. A record with
/// no values, or with an integer first value, keys as the empty string.
pub open spec fn record_key(rec: Record) -> Seq<char> {
    if rec.values@.len() > 0 {
        match rec.values@[0] {
            SqlValue::Text(s) => s@,
            SqlValue::Integer(_) => Seq::empty(),
        }
    } else {
        Seq::empty()
    }
}

/// Whether the records stand in ascending key order.
pub open spec fn sorted_by_key(s: Seq<Record>) -> bool {
    forall|i: int, j: int|
        0 <= i < j < s.len() ==> lex_le(record_key(#[trigger] s[i]), record_key(#[trigger] s[j]))
}

/// Whether `a` sorts at or before `b` by listing key.
fn record_le(a: &Record, b: &Record) -> (r: bool)
    ensures
        r == lex_le(record_key(*a), record_key(*b)),
{
    proof {
        reveal_strlit("");
        assert(""@ =~= Seq::<char>::empty());
    }
    let ka: &str = if a.values.len() > 0 {
        match &a.values[0] {
            SqlValue::Text(s) => s.as_str(),
            SqlValue::Integer(_) => "",
        }
    } else {
        ""
    };
    let kb: &str = if b.values.len() > 0 {
        match &b.values[0] {
            SqlValue::Text(s) => s.as_str(),
            SqlValue::Integer(_) => "",
        }
    } else {
        ""
    };
    lex_le_exec(ka, kb)
}

/// Cap and order a retrieved listing. A zero limit returns the records
/// unchanged; a positive limit keeps the first `limit` records and orders
/// what is kept by listing key, ascending. The caller chooses which records
/// reach the cap (the listing shuffles them first).
pub fn limit_and_order(records: Vec<Record>, limit: usize) -> (r: Vec<Record>)
    ensures
        limit == 0 ==> r@ == records@,
        limit > 0 ==> {
            let kept = if records@.len() <= limit {
                records@
            } else {
                records@.take(limit as int)
            };
            &&& r@.to_multiset() == kept.to_multiset()
            &&& r@.len() == kept.len()
            &&& sorted_by_key(r@)
        },
{
    let ghost orig: Seq<Record> = records@;
    if limit == 0 {
        return records;
    }
    let mut rest = records;
    rest.truncate(limit);
    proof {
        if orig.len() > limit {
            assert(rest@ =~= orig.take(limit as int));
        } else {
            assert(rest@ =~= orig);
        }
    }
    let ghost kept: Seq<Record> = rest@;
    let mut out: Vec<Record> = Vec::new();
    while rest.len() > 0
        invariant
            out@.len() + rest@.len() == kept.len(),
            out@.to_multiset().add(rest@.to_multiset()) == kept.to_multiset(),
            sorted_by_key(out@),
            forall|i: int, j: int|
                0 <= i < out@.len() && 0 <= j < rest@.len() ==> lex_le(
                    record_key(#[trigger] out@[i]),
                    record_key(#[trigger] rest@[j]),
                ),
        decreases rest@.len(),
    {
        let m = min_key_index(&rest);
        let ghost old_out: Seq<Record> = out@;
        let ghost old_rest: Seq<Record> = rest@;
        let x = rest.remove(m);
        proof {
            assert(old_rest.contains(x));
            assert(old_rest.to_multiset().count(x) > 0);
            assert(old_rest.remove(m as int).to_multiset() =~= old_rest.to_multiset().remove(x));
            assert(rest@.to_multiset() == old_rest.to_multiset().remove(x));
            assert forall|j: int| 0 <= j < rest@.len() implies lex_le(
                record_key(x),
                record_key(#[trigger] rest@[j]),
            ) by {
                if j < m {
                    assert(rest@[j] == old_rest[j]);
                } else {
                    assert(rest@[j] == old_rest[j + 1]);
                }
            }
        }
        out.push(x);
        proof {
            assert(old_out.push(x).to_multiset() =~= old_out.to_multiset().insert(x));
            assert(out@.to_multiset() == old_out.to_multiset().insert(x));
            assert(out@.to_multiset().add(rest@.to_multiset()) =~= kept.to_multiset());
            assert forall|i: int, j: int|
                0 <= i < j < out@.len() implies lex_le(
                record_key(#[trigger] out@[i]),
                record_key(#[trigger] out@[j]),
            ) by {
                if j < out@.len() - 1 {
                    assert(out@[i] == old_out[i] && out@[j] == old_out[j]);
                } else {
                    assert(out@[j] == x);
                }
            }
        }
    }
    proof {
        assert(rest@.to_multiset().len() == 0);
        assert(forall|e: Record| #[trigger] rest@.to_multiset().count(e) == 0);
        assert(out@.to_multiset() =~= kept.to_multiset());
    }
    out
}

/// The position of a record whose key is at most every record's key.
fn min_key_index(rest: &Vec<Record>) -> (m: usize)
    requires
        rest@.len() > 0,
    ensures
        m < rest@.len(),
        forall|t: int| 0 <= t < rest@.len() ==> lex_le(record_key(rest@[m as int]), record_key(#[trigger] rest@[t])),
{
    let n = rest.len();
    let mut m: usize = 0;
    let mut k: usize = 1;
    proof {
        lemma_lex_le_refl(record_key(rest@[0]));
    }
    while k < n
        invariant
            n == rest@.len(),
            m < k <= n,
            forall|t: int| 0 <= t < k ==> lex_le(record_key(rest@[m as int]), record_key(#[trigger] rest@[t])),
        decreases n - k,
    {
        if !record_le(&rest[m], &rest[k]) {
            proof {
                lemma_lex_le_total(record_key(rest@[m as int]), record_key(rest@[k as int]));
                assert forall|t: int| 0 <= t < k implies lex_le(
                    record_key(rest@[k as int]),
                    record_key(#[trigger] rest@[t]),
                ) by {
                    lemma_lex_le_trans(
                        record_key(rest@[k as int]),
                        record_key(rest@[m as int]),
                        record_key(rest@[t]),
                    );
                }
            }
            m = k;
        }
        proof {
            lemma_lex_le_refl(record_key(rest@[m as int]));
        }
        k = k + 1;
    }
    m
}

/// Execute the insertion statement for `schema` against the store, binding
/// `record`'s values positionally: value `i` to placeholder `i`, in
/// declaration order. No conflict handling: a duplicate primary key is the
/// store's error, propagated unchanged.
pub fn insert(schema: &RecordSchema, record: &Record, conn: &rusqlite::Connection) -> (r: Result<
    (),
    DbError,
>)
    requires
        record.values@.len() == schema.fields@.len(),
    ensures
        r matches Err(e) ==> e is Store,
{
    let sql = insert_sql(schema);
    match exec_sql(conn, sql.as_str(), &record.values) {
        Ok(_) => Ok(()),
        Err(e) => Err(DbError::Store(e)),
    }
}

} // verus!
