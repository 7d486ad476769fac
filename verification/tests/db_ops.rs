use videodb::ops::{create_indexes, create_table, insert, limit_and_order, row_to_record, select, DbError, Record};
use videodb::resolve::{resolve_schema, FieldDecl, TypeAttr};
use videodb::schema::RecordSchema;
use videodb::filter::{prepare_where_clause, FilterArg};
use videodb::store::SqlValue;

fn attr(name: &str, value: &str) -> TypeAttr {
    TypeAttr { name: name.to_string(), value: value.to_string() }
}

fn decl(name: &str, type_token: &str, markers: &[&str]) -> FieldDecl {
    FieldDecl {
        name: name.to_string(),
        type_token: type_token.to_string(),
        markers: markers.iter().map(|m| m.to_string()).collect(),
    }
}

fn video_schema() -> RecordSchema {
    let attrs = vec![attr("table_name", "video")];
    let decls = vec![
        decl("name", "String", &["primary"]),
        decl("tag", "String", &["index"]),
        decl("file_name", "String", &[]),
        decl("file_size", "u32", &[]),
        decl("duration", "u32", &["index"]),
    ];
    resolve_schema(&attrs, decls).unwrap()
}

fn record(name: &str, tag: &str, file_name: &str, file_size: i64, duration: i64) -> Record {
    Record {
        values: vec![
            SqlValue::Text(name.to_string()),
            SqlValue::Text(tag.to_string()),
            SqlValue::Text(file_name.to_string()),
            SqlValue::Integer(file_size),
            SqlValue::Integer(duration),
        ],
    }
}

fn schema_object_count(conn: &rusqlite::Connection) -> i64 {
    conn.query_row("SELECT COUNT(*) FROM sqlite_master", [], |row| row.get(0)).unwrap()
}

#[test]
fn table_and_index_creation_is_idempotent() {
    let schema = video_schema();
    let conn = rusqlite::Connection::open_in_memory().unwrap();
    create_table(&schema, &conn).unwrap();
    create_indexes(&schema, &conn).unwrap();
    let count = schema_object_count(&conn);
    // The second invocation must neither fail nor add schema objects.
    create_table(&schema, &conn).unwrap();
    create_indexes(&schema, &conn).unwrap();
    assert_eq!(schema_object_count(&conn), count);
}

#[test]
fn created_indexes_exist_under_their_names() {
    let schema = video_schema();
    let conn = rusqlite::Connection::open_in_memory().unwrap();
    create_table(&schema, &conn).unwrap();
    create_indexes(&schema, &conn).unwrap();
    let n: i64 = conn
        .query_row(
            "SELECT COUNT(*) FROM sqlite_master WHERE type='index' \
             AND name IN ('idx_video_tag', 'idx_video_duration')",
            [],
            |row| row.get(0),
        )
        .unwrap();
    assert_eq!(n, 2);
}

#[test]
fn no_indexed_field_creates_nothing_and_succeeds() {
    let attrs = vec![attr("table_name", "plain")];
    let decls = vec![decl("name", "String", &["primary"]), decl("size", "u32", &[])];
    let schema = resolve_schema(&attrs, decls).unwrap();
    let conn = rusqlite::Connection::open_in_memory().unwrap();
    // No statement exists, so the call succeeds even before the table does.
    create_indexes(&schema, &conn).unwrap();
    create_table(&schema, &conn).unwrap();
    create_indexes(&schema, &conn).unwrap();
    let n: i64 = conn
        .query_row(
            "SELECT COUNT(*) FROM sqlite_master WHERE type='index' AND name LIKE 'idx_%'",
            [],
            |row| row.get(0),
        )
        .unwrap();
    assert_eq!(n, 0);
}

#[test]
fn limited_listing_keeps_a_capped_sorted_subset() {
    let a = record("A", "T", "a", 1, 1);
    let b = record("B", "T", "b", 2, 2);
    let c = record("C", "T", "c", 3, 3);

    let unlimited = limit_and_order(vec![c.clone(), a.clone(), b.clone()], 0);
    assert_eq!(unlimited, vec![c.clone(), a.clone(), b.clone()]);

    let all = limit_and_order(vec![c.clone(), a.clone(), b.clone()], 5);
    assert_eq!(all, vec![a.clone(), b.clone(), c.clone()]);

    let capped = limit_and_order(vec![c.clone(), a.clone(), b.clone()], 2);
    assert_eq!(capped, vec![a, c]);
}

#[test]
fn insert_then_select_round_trips_all_fields() {
    let schema = video_schema();
    let conn = rusqlite::Connection::open_in_memory().unwrap();
    create_table(&schema, &conn).unwrap();
    let rec = record("ABC", "ACTION", "ab-c.mp4", 123456, 90);
    insert(&schema, &rec, &conn).unwrap();
    let rows = select(&schema, &conn, "", &Vec::new()).unwrap();
    assert_eq!(rows.len(), 1);
    assert_eq!(rows[0], rec);
}

#[test]
fn select_with_filter_returns_matching_rows_in_order() {
    let schema = video_schema();
    let conn = rusqlite::Connection::open_in_memory().unwrap();
    create_table(&schema, &conn).unwrap();
    create_indexes(&schema, &conn).unwrap();
    let b = record("B", "ACTION", "b.mp4", 2, 20);
    let a = record("A", "ACTION", "a.mp4", 1, 10);
    let c = record("C", "DRAMA", "c.mp4", 3, 30);
    insert(&schema, &b, &conn).unwrap();
    insert(&schema, &a, &conn).unwrap();
    insert(&schema, &c, &conn).unwrap();
    let params = vec![SqlValue::Text("ACTION".to_string())];
    let rows = select(&schema, &conn, "WHERE tag=? ORDER BY name", &params).unwrap();
    assert_eq!(rows.len(), 2);
    assert_eq!(rows[0], a);
    assert_eq!(rows[1], b);
}

#[test]
fn prepared_filter_drives_select_end_to_end() {
    let schema = video_schema();
    let conn = rusqlite::Connection::open_in_memory().unwrap();
    create_table(&schema, &conn).unwrap();
    insert(&schema, &record("ALPHA", "ACTION", "a.mp4", 1, 10), &conn).unwrap();
    insert(&schema, &record("ARROW", "DRAMA", "r.mp4", 2, 20), &conn).unwrap();
    insert(&schema, &record("BETA", "ACTION", "b.mp4", 3, 30), &conn).unwrap();
    let arg = FilterArg {
        name: Some("a".to_string()),
        tag: Some("action".to_string()),
        duration: None,
        duration_range: 5,
        limit: 0,
    };
    let (clause, params) = prepare_where_clause(&arg);
    let params: Vec<SqlValue> = params.into_iter().map(SqlValue::Text).collect();
    let rows = select(&schema, &conn, &clause, &params).unwrap();
    assert_eq!(rows.len(), 1);
    assert_eq!(rows[0].values[0], SqlValue::Text("ALPHA".to_string()));
}

#[test]
fn duplicate_primary_key_errors_and_leaves_row_unmodified() {
    let schema = video_schema();
    let conn = rusqlite::Connection::open_in_memory().unwrap();
    create_table(&schema, &conn).unwrap();
    let original = record("ABC", "ACTION", "a.mp4", 1, 10);
    insert(&schema, &original, &conn).unwrap();
    let duplicate = record("ABC", "DRAMA", "d.mp4", 2, 20);
    let err = insert(&schema, &duplicate, &conn).unwrap_err();
    assert!(matches!(err, DbError::Store(_)));
    let rows = select(&schema, &conn, "", &Vec::new()).unwrap();
    assert_eq!(rows.len(), 1);
    assert_eq!(rows[0], original);
}

#[test]
fn malformed_filter_fragment_propagates_store_error() {
    let schema = video_schema();
    let conn = rusqlite::Connection::open_in_memory().unwrap();
    create_table(&schema, &conn).unwrap();
    let err = select(&schema, &conn, "WHERE nonsense(", &Vec::new()).unwrap_err();
    assert!(matches!(err, DbError::Store(_)));
}

#[test]
fn value_outside_declared_storage_class_aborts_select() {
    let schema = video_schema();
    let conn = rusqlite::Connection::open_in_memory().unwrap();
    create_table(&schema, &conn).unwrap();
    // SQLite stores what it is given: a text value sits in the INTEGER
    // column, and retrieval must reject the row rather than misread it.
    conn.execute(
        "INSERT INTO video(name, tag, file_name, file_size, duration) \
         VALUES ('A', 'T', 'f', 'not a number', 1)",
        [],
    )
    .unwrap();
    assert!(select(&schema, &conn, "", &Vec::new()).is_err());
}

#[test]
fn row_mapping_is_positional_and_type_checked() {
    let schema = video_schema();
    let row = vec![
        SqlValue::Text("A".to_string()),
        SqlValue::Text("T".to_string()),
        SqlValue::Text("f".to_string()),
        SqlValue::Integer(1),
        SqlValue::Integer(2),
    ];
    let rec = row_to_record(&schema, row.clone(), 0).unwrap();
    assert_eq!(rec.values, row);

    let bad = vec![
        SqlValue::Text("A".to_string()),
        SqlValue::Text("T".to_string()),
        SqlValue::Text("f".to_string()),
        SqlValue::Text("not a number".to_string()),
        SqlValue::Integer(2),
    ];
    let err = row_to_record(&schema, bad, 7).unwrap_err();
    assert!(matches!(err, DbError::ColumnType { row: 7, column: 3 }));
}

#[test]
fn select_on_missing_table_propagates_store_error() {
    let schema = video_schema();
    let conn = rusqlite::Connection::open_in_memory().unwrap();
    let err = select(&schema, &conn, "", &Vec::new()).unwrap_err();
    assert!(matches!(err, DbError::Store(_)));
}
