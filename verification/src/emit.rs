//! The four statement emitters. Each statement's text is pinned, character
//! for character, by a spec function over the schema, and every emitter
//! derives its column order from the one field list of the schema.

use crate::schema::{Field, RecordSchema};
use crate::StorageType;
use vstd::prelude::*;
use vstd::string::StringExecFns;

verus! {

/// `parts` joined with `sep` between consecutive parts, no leading or
/// trailing separator.
pub open spec fn join_sep(parts: Seq<Seq<char>>, sep: Seq<char>) -> Seq<char>
    decreases parts.len(),
{
    if parts.len() == 0 {
        Seq::empty()
    } else if parts.len() == 1 {
        parts[0]
    } else {
        join_sep(parts.drop_last(), sep) + sep + parts.last()
    }
}

pub proof fn lemma_join_sep_push(parts: Seq<Seq<char>>, p: Seq<char>, sep: Seq<char>)
    ensures
        join_sep(parts.push(p), sep) == if parts.len() == 0 {
            p
        } else {
            (join_sep(parts, sep) + sep + p)
        },
{
    let q = parts.push(p);
    assert(q.drop_last() =~= parts);
    assert(q.last() == p);
}

/// The SQL type keyword of a storage class.
pub open spec fn storage_type_sql(t: StorageType) -> Seq<char> {
    match t {
        StorageType::Text => "TEXT"@,
        StorageType::Integer => "INTEGER"@,
    }
}

/// One column clause of the table-creation statement: the column name,
/// its type, `NOT NULL`, and `PRIMARY KEY` when the field is marked primary.
/// Nothing enforces a single primary marker: every field marked primary
/// carries the clause, and what the store makes of several is the store's
/// affair.
pub open spec fn column_clause(f: Field) -> Seq<char> {
    f.name@ + " "@ + storage_type_sql(f.storage_type) + " NOT NULL"@ + if f.is_primary {
        " PRIMARY KEY"@
    } else {
        Seq::<char>::empty()
    }
}

/// The column clauses of all fields, in declaration order.
pub open spec fn column_clauses(fields: Seq<Field>) -> Seq<Seq<char>> {
    fields.map_values(|f: Field| column_clause(f))
}

/// The column names of all fields, in declaration order. This one sequence
/// orders the table's columns, the select list, and the insert list alike.
pub open spec fn column_names(fields: Seq<Field>) -> Seq<Seq<char>> {
    fields.map_values(|f: Field| f.name@)
}

/// The idempotent table-creation statement.
pub open spec fn create_table_sql_spec(s: RecordSchema) -> Seq<char> {
    "CREATE TABLE IF NOT EXISTS "@ + s.table_name@ + "("@ + join_sep(
        column_clauses(s.fields@),
        ", "@,
    ) + ")"@
}

/// The idempotent index-creation statement for one indexed column.
pub open spec fn index_sql_spec(table: Seq<char>, column: Seq<char>) -> Seq<char> {
    "CREATE INDEX IF NOT EXISTS idx_"@ + table + "_"@ + column + " ON "@ + table + "("@ + column
        + ")"@
}

/// The index-creation statements of the fields marked indexed, in
/// declaration order; fields without the marker contribute none.
pub open spec fn index_sqls_spec(table: Seq<char>, fields: Seq<Field>) -> Seq<Seq<char>>
    decreases fields.len(),
{
    if fields.len() == 0 {
        Seq::empty()
    } else {
        index_sqls_spec(table, fields.drop_last()) + if fields.last().is_indexed {
            seq![index_sql_spec(table, fields.last().name@)]
        } else {
            Seq::<Seq<char>>::empty()
        }
    }
}

/// The base retrieval statement, without any filter.
pub open spec fn select_sql_spec(s: RecordSchema) -> Seq<char> {
    "SELECT "@ + join_sep(column_names(s.fields@), ", "@) + " FROM "@ + s.table_name@
}

/// The retrieval statement with the caller's filter fragment: appended
/// verbatim after one space when non-empty, absent when empty.
pub open spec fn select_stmt_spec(s: RecordSchema, filter: Seq<char>) -> Seq<char> {
    if filter.len() == 0 {
        select_sql_spec(s)
    } else {
        select_sql_spec(s) + " "@ + filter
    }
}

/// `n` positional placeholders, comma-separated.
pub open spec fn placeholders(n: nat) -> Seq<char>
    decreases n,
{
    if n == 0 {
        Seq::empty()
    } else if n == 1 {
        "?"@
    } else {
        placeholders((n - 1) as nat) + ",?"@
    }
}

/// The insertion statement: one placeholder per field, in declaration order.
pub open spec fn insert_sql_spec(s: RecordSchema) -> Seq<char> {
    "INSERT INTO "@ + s.table_name@ + "("@ + join_sep(column_names(s.fields@), ", "@)
        + ") VALUES ("@ + placeholders(s.fields@.len()) + ")"@
}

/// The table-creation statement holds exactly one column clause per field,
/// joined in declaration order, and each clause starts with the field's
/// name: the column list's length equals the field count and its order is
/// declaration order.
pub proof fn lemma_create_table_columns(s: RecordSchema)
    ensures
        create_table_sql_spec(s) == "CREATE TABLE IF NOT EXISTS "@ + s.table_name@ + "("@
            + join_sep(column_clauses(s.fields@), ", "@) + ")"@,
        column_clauses(s.fields@).len() == s.fields@.len(),
        forall|i: int|
            0 <= i < s.fields@.len() ==> #[trigger] column_clauses(s.fields@)[i] == column_clause(
                s.fields@[i],
            ),
        forall|i: int|
            0 <= i < s.fields@.len() ==> #[trigger] column_clauses(s.fields@)[i].take(
                s.fields@[i].name@.len() as int,
            ) == s.fields@[i].name@,
{
    assert forall|i: int| 0 <= i < s.fields@.len() implies #[trigger] column_clauses(
        s.fields@,
    )[i].take(s.fields@[i].name@.len() as int) == s.fields@[i].name@ by {
        assert(column_clauses(s.fields@)[i] == column_clause(s.fields@[i]));
        assert(column_clause(s.fields@[i]).take(s.fields@[i].name@.len() as int)
            =~= s.fields@[i].name@);
    }
}

/// A field's generated column type is `TEXT` exactly when its storage class
/// is the text class, and `INTEGER` otherwise.
pub proof fn lemma_column_type_exact(t: StorageType)
    ensures
        (storage_type_sql(t) == "TEXT"@) <==> t is Text,
        (storage_type_sql(t) == "INTEGER"@) <==> t is Integer,
{
    reveal_strlit("TEXT");
    reveal_strlit("INTEGER");
    assert("TEXT"@.len() == 4);
    assert("INTEGER"@.len() == 7);
}

/// Classification is exact: a resolved field's generated column type is
/// `TEXT` exactly when its declared type token is the text type itself, and
/// `INTEGER` for every other token, however closely it resembles the text
/// type.
pub proof fn lemma_token_classification(type_token: Seq<char>)
    ensures
        (storage_type_sql(crate::resolve::storage_of(type_token)) == "TEXT"@) <==> type_token
            == "String"@,
        (storage_type_sql(crate::resolve::storage_of(type_token)) == "INTEGER"@) <==> type_token
            != "String"@,
{
    lemma_column_type_exact(crate::resolve::storage_of(type_token));
}

/// The select list and the insert column list are the same sequence of
/// column names, in declaration order, and the insertion statement carries
/// exactly one placeholder per field: the two statements and the table's
/// column order can never disagree.
pub proof fn lemma_select_insert_share_order(s: RecordSchema)
    ensures
        select_sql_spec(s) == "SELECT "@ + join_sep(column_names(s.fields@), ", "@) + " FROM "@
            + s.table_name@,
        insert_sql_spec(s) == "INSERT INTO "@ + s.table_name@ + "("@ + join_sep(
            column_names(s.fields@),
            ", "@,
        ) + ") VALUES ("@ + placeholders(s.fields@.len()) + ")"@,
        column_names(s.fields@).len() == s.fields@.len(),
        forall|i: int|
            0 <= i < s.fields@.len() ==> #[trigger] column_names(s.fields@)[i]
                == s.fields@[i].name@,
{
}

/// Every index-creation statement opens with the guarded form.
proof fn lemma_index_sqls_idempotent_form(table: Seq<char>, fields: Seq<Field>)
    ensures
        forall|i: int|
            0 <= i < index_sqls_spec(table, fields).len() ==> (#[trigger] index_sqls_spec(
                table,
                fields,
            )[i]).take(31) == "CREATE INDEX IF NOT EXISTS idx_"@,
    decreases fields.len(),
{
    reveal_strlit("CREATE INDEX IF NOT EXISTS idx_");
    if fields.len() > 0 {
        lemma_index_sqls_idempotent_form(table, fields.drop_last());
        let pre = index_sqls_spec(table, fields.drop_last());
        let whole = index_sqls_spec(table, fields);
        if fields.last().is_indexed {
            assert(index_sql_spec(table, fields.last().name@).take(31)
                =~= "CREATE INDEX IF NOT EXISTS idx_"@);
        }
        assert forall|i: int| 0 <= i < whole.len() implies (#[trigger] whole[i]).take(31)
            == "CREATE INDEX IF NOT EXISTS idx_"@ by {
            if i < pre.len() {
                assert(whole[i] == pre[i]);
            } else {
                assert(whole[i] == index_sql_spec(table, fields.last().name@));
            }
        }
    }
}

/// Idempotent form: for every schema, the table-creation statement and each
/// index-creation statement open with their `IF NOT EXISTS` guard, so that
/// repeating them against a store that already holds the objects is asked
/// to change nothing.
pub proof fn lemma_schema_statements_idempotent_form(s: RecordSchema)
    ensures
        create_table_sql_spec(s).take(27) == "CREATE TABLE IF NOT EXISTS "@,
        forall|i: int|
            0 <= i < index_sqls_spec(s.table_name@, s.fields@).len() ==> (
            #[trigger] index_sqls_spec(s.table_name@, s.fields@)[i]).take(31)
                == "CREATE INDEX IF NOT EXISTS idx_"@,
{
    reveal_strlit("CREATE TABLE IF NOT EXISTS ");
    assert(create_table_sql_spec(s).take(27) =~= "CREATE TABLE IF NOT EXISTS "@);
    lemma_index_sqls_idempotent_form(s.table_name@, s.fields@);
}

/// Produce the table-creation statement for `schema`.
pub fn create_table_sql(schema: &RecordSchema) -> (r: String)
    ensures
        r@ == create_table_sql_spec(*schema),
{
    let ghost pre: Seq<char> = "CREATE TABLE IF NOT EXISTS "@ + schema.table_name@ + "("@;
    let mut sql = String::new();
    sql.append("CREATE TABLE IF NOT EXISTS ");
    sql.append(schema.table_name.as_str());
    sql.append("(");
    assert(sql@ =~= pre);
    let n = schema.fields.len();
    let mut i: usize = 0;
    while i < n
        invariant
            n == schema.fields@.len(),
            i <= n,
            sql@ == pre + join_sep(column_clauses(schema.fields@.take(i as int)), ", "@),
        decreases n - i,
    {
        if i > 0 {
            sql.append(", ");
        }
        let f = &schema.fields[i];
        sql.append(f.name.as_str());
        sql.append(" ");
        match f.storage_type {
            StorageType::Text => sql.append("TEXT"),
            StorageType::Integer => sql.append("INTEGER"),
        }
        sql.append(" NOT NULL");
        if f.is_primary {
            sql.append(" PRIMARY KEY");
        }
        proof {
            let prev = column_clauses(schema.fields@.take(i as int));
            let cur = column_clauses(schema.fields@.take(i + 1 as int));
            assert(cur =~= prev.push(column_clause(schema.fields@[i as int])));
            lemma_join_sep_push(prev, column_clause(schema.fields@[i as int]), ", "@);
            assert(sql@ =~= pre + join_sep(cur, ", "@));
        }
        i = i + 1;
    }
    assert(schema.fields@.take(n as int) =~= schema.fields@);
    sql.append(")");
    assert(sql@ =~= create_table_sql_spec(*schema));
    sql
}

/// Produce the index-creation statements for `schema`, one per field marked
/// indexed, in declaration order.
pub fn index_sqls(schema: &RecordSchema) -> (r: Vec<String>)
    ensures
        r.deep_view() == index_sqls_spec(schema.table_name@, schema.fields@),
{
    let mut out: Vec<String> = Vec::new();
    let n = schema.fields.len();
    let mut i: usize = 0;
    while i < n
        invariant
            n == schema.fields@.len(),
            i <= n,
            out.deep_view() == index_sqls_spec(schema.table_name@, schema.fields@.take(i as int)),
        decreases n - i,
    {
        let f = &schema.fields[i];
        if f.is_indexed {
            let mut sql = String::new();
            sql.append("CREATE INDEX IF NOT EXISTS idx_");
            sql.append(schema.table_name.as_str());
            sql.append("_");
            sql.append(f.name.as_str());
            sql.append(" ON ");
            sql.append(schema.table_name.as_str());
            sql.append("(");
            sql.append(f.name.as_str());
            sql.append(")");
            assert(sql@ =~= index_sql_spec(schema.table_name@, f.name@));
            out.push(sql);
        }
        proof {
            let pre = schema.fields@.take(i as int);
            let cur = schema.fields@.take(i + 1 as int);
            assert(cur.drop_last() =~= pre);
            assert(cur.last() == schema.fields@[i as int]);
            assert(out.deep_view() =~= index_sqls_spec(schema.table_name@, cur));
        }
        i = i + 1;
    }
    assert(schema.fields@.take(n as int) =~= schema.fields@);
    out
}

/// Produce the base retrieval statement for `schema`.
pub fn select_sql(schema: &RecordSchema) -> (r: String)
    ensures
        r@ == select_sql_spec(*schema),
{
    let ghost pre: Seq<char> = "SELECT "@;
    let mut sql = String::new();
    sql.append("SELECT ");
    assert(sql@ =~= pre);
    let n = schema.fields.len();
    let mut i: usize = 0;
    while i < n
        invariant
            n == schema.fields@.len(),
            i <= n,
            sql@ == pre + join_sep(column_names(schema.fields@.take(i as int)), ", "@),
        decreases n - i,
    {
        if i > 0 {
            sql.append(", ");
        }
        sql.append(schema.fields[i].name.as_str());
        proof {
            let prev = column_names(schema.fields@.take(i as int));
            let cur = column_names(schema.fields@.take(i + 1 as int));
            assert(cur =~= prev.push(schema.fields@[i as int].name@));
            lemma_join_sep_push(prev, schema.fields@[i as int].name@, ", "@);
            assert(sql@ =~= pre + join_sep(cur, ", "@));
        }
        i = i + 1;
    }
    assert(schema.fields@.take(n as int) =~= schema.fields@);
    sql.append(" FROM ");
    sql.append(schema.table_name.as_str());
    assert(sql@ =~= select_sql_spec(*schema));
    sql
}

/// Produce the full retrieval statement: the base statement, then the
/// caller's filter fragment verbatim after one space when it is non-empty.
pub fn select_stmt(schema: &RecordSchema, filter: &str) -> (r: String)
    ensures
        r@ == select_stmt_spec(*schema, filter@),
{
    let mut sql = select_sql(schema);
    if filter.unicode_len() > 0 {
        sql.append(" ");
        sql.append(filter);
    }
    sql
}

/// Produce the insertion statement for `schema`.
pub fn insert_sql(schema: &RecordSchema) -> (r: String)
    ensures
        r@ == insert_sql_spec(*schema),
{
    let ghost pre: Seq<char> = "INSERT INTO "@ + schema.table_name@ + "("@;
    let mut sql = String::new();
    sql.append("INSERT INTO ");
    sql.append(schema.table_name.as_str());
    sql.append("(");
    assert(sql@ =~= pre);
    let n = schema.fields.len();
    let mut i: usize = 0;
    while i < n
        invariant
            n == schema.fields@.len(),
            i <= n,
            sql@ == pre + join_sep(column_names(schema.fields@.take(i as int)), ", "@),
        decreases n - i,
    {
        if i > 0 {
            sql.append(", ");
        }
        sql.append(schema.fields[i].name.as_str());
        proof {
            let prev = column_names(schema.fields@.take(i as int));
            let cur = column_names(schema.fields@.take(i + 1 as int));
            assert(cur =~= prev.push(schema.fields@[i as int].name@));
            lemma_join_sep_push(prev, schema.fields@[i as int].name@, ", "@);
            assert(sql@ =~= pre + join_sep(cur, ", "@));
        }
        i = i + 1;
    }
    assert(schema.fields@.take(n as int) =~= schema.fields@);
    sql.append(") VALUES (");
    let ghost mid: Seq<char> = pre + join_sep(column_names(schema.fields@), ", "@) + ") VALUES ("@;
    assert(sql@ =~= mid);
    let mut j: usize = 0;
    while j < n
        invariant
            n == schema.fields@.len(),
            j <= n,
            sql@ == mid + placeholders(j as nat),
        decreases n - j,
    {
        if j == 0 {
            sql.append("?");
        } else {
            sql.append(",?");
        }
        assert(sql@ =~= mid + placeholders((j + 1) as nat));
        j = j + 1;
    }
    sql.append(")");
    assert(sql@ =~= insert_sql_spec(*schema));
    sql
}

} // verus!
