use videodb::emit::{create_table_sql, index_sqls, insert_sql, select_sql, select_stmt};
use videodb::resolve::{resolve_schema, FieldDecl, SchemaError, TypeAttr};
use videodb::schema::{Field, RecordSchema};
use videodb::StorageType;

fn attr(name: &str, value: &str) -> TypeAttr {
    TypeAttr { name: name.to_string(), value: value.to_string() }
}

fn decl(name: &str, type_token: &str, markers: &[&str]) -> FieldDecl {
    FieldDecl {
        name: name.to_string(),
        type_token: type_token.to_string(),
        markers: markers.iter().map(|m| m.to_string()).collect(),
    }
}

fn video_schema() -> RecordSchema {
    let attrs = vec![attr("table_name", "video")];
    let decls = vec![
        decl("name", "String", &["primary"]),
        decl("tag", "String", &["index"]),
        decl("file_name", "String", &[]),
        decl("file_size", "u32", &[]),
        decl("duration", "u32", &["index"]),
        decl("video_codec", "String", &[]),
        decl("video_bit_rate", "u32", &[]),
        decl("video_frame_rate", "u32", &[]),
        decl("video_width", "u32", &[]),
        decl("video_height", "u32", &[]),
        decl("audio_codec", "String", &[]),
        decl("audio_bit_rate", "u32", &[]),
    ];
    resolve_schema(&attrs, decls).unwrap()
}

#[test]
fn create_table_statement_matches_schema() {
    let schema = video_schema();
    let sql = create_table_sql(&schema);
    assert_eq!(
        sql,
        "CREATE TABLE IF NOT EXISTS video(\
         name TEXT NOT NULL PRIMARY KEY, \
         tag TEXT NOT NULL, \
         file_name TEXT NOT NULL, \
         file_size INTEGER NOT NULL, \
         duration INTEGER NOT NULL, \
         video_codec TEXT NOT NULL, \
         video_bit_rate INTEGER NOT NULL, \
         video_frame_rate INTEGER NOT NULL, \
         video_width INTEGER NOT NULL, \
         video_height INTEGER NOT NULL, \
         audio_codec TEXT NOT NULL, \
         audio_bit_rate INTEGER NOT NULL)"
    );
}

#[test]
fn create_table_column_count_and_order() {
    let schema = video_schema();
    let sql = create_table_sql(&schema);
    let open = sql.find('(').unwrap();
    let inner = &sql[open + 1..sql.len() - 1];
    let columns: Vec<&str> = inner.split(", ").collect();
    assert_eq!(columns.len(), schema.fields.len());
    for (i, column) in columns.iter().enumerate() {
        assert!(column.starts_with(schema.fields[i].name.as_str()));
    }
}

#[test]
fn storage_type_is_exact_match_on_text_token() {
    let attrs = vec![attr("table_name", "t")];
    let decls = vec![
        decl("a", "String", &[]),
        decl("b", "u32", &[]),
        decl("c", "Strings", &[]),
        decl("d", "string", &[]),
        decl("e", "i64", &[]),
    ];
    let schema = resolve_schema(&attrs, decls).unwrap();
    assert_eq!(schema.fields[0].storage_type, StorageType::Text);
    assert_eq!(schema.fields[1].storage_type, StorageType::Integer);
    assert_eq!(schema.fields[2].storage_type, StorageType::Integer);
    assert_eq!(schema.fields[3].storage_type, StorageType::Integer);
    assert_eq!(schema.fields[4].storage_type, StorageType::Integer);
    let sql = create_table_sql(&schema);
    assert_eq!(
        sql,
        "CREATE TABLE IF NOT EXISTS t(a TEXT NOT NULL, b INTEGER NOT NULL, \
         c INTEGER NOT NULL, d INTEGER NOT NULL, e INTEGER NOT NULL)"
    );
}

#[test]
fn index_name_for_video_tag() {
    let schema = video_schema();
    let sqls = index_sqls(&schema);
    assert_eq!(sqls.len(), 2);
    assert_eq!(sqls[0], "CREATE INDEX IF NOT EXISTS idx_video_tag ON video(tag)");
    assert_eq!(sqls[1], "CREATE INDEX IF NOT EXISTS idx_video_duration ON video(duration)");
}

#[test]
fn unindexed_fields_emit_no_index() {
    let attrs = vec![attr("table_name", "t")];
    let decls = vec![decl("a", "String", &["primary"]), decl("b", "u32", &[])];
    let schema = resolve_schema(&attrs, decls).unwrap();
    assert!(index_sqls(&schema).is_empty());
}

#[test]
fn select_statement_and_filter_appending() {
    let schema = video_schema();
    let base = select_sql(&schema);
    assert_eq!(
        base,
        "SELECT name, tag, file_name, file_size, duration, video_codec, \
         video_bit_rate, video_frame_rate, video_width, video_height, \
         audio_codec, audio_bit_rate FROM video"
    );
    assert_eq!(select_stmt(&schema, ""), base);
    assert_eq!(
        select_stmt(&schema, "WHERE tag=? ORDER BY name"),
        format!("{base} WHERE tag=? ORDER BY name")
    );
}

#[test]
fn insert_statement_one_placeholder_per_field() {
    let attrs = vec![attr("table_name", "video")];
    let decls = vec![
        decl("name", "String", &["primary"]),
        decl("tag", "String", &[]),
        decl("file_size", "u32", &[]),
    ];
    let schema = resolve_schema(&attrs, decls).unwrap();
    assert_eq!(insert_sql(&schema), "INSERT INTO video(name, tag, file_size) VALUES (?,?,?)");
}

#[test]
fn missing_table_name_fails_generation() {
    let attrs = vec![attr("other", "video")];
    let decls = vec![decl("name", "String", &[])];
    let err = resolve_schema(&attrs, decls).unwrap_err();
    assert_eq!(err, SchemaError::MissingTableName);
    assert_eq!(err.message(), "no attribute 'table_name'");
}

#[test]
fn empty_table_name_fails_generation() {
    let attrs = vec![attr("table_name", "")];
    let decls = vec![decl("name", "String", &[])];
    let err = resolve_schema(&attrs, decls).unwrap_err();
    assert_eq!(err, SchemaError::EmptyTableName);
    assert_eq!(err.message(), "attribute 'table_name' has no value");
}

#[test]
fn first_table_name_attribute_wins() {
    let attrs = vec![attr("x", "1"), attr("table_name", "first"), attr("table_name", "second")];
    let schema = resolve_schema(&attrs, vec![]).unwrap();
    assert_eq!(schema.table_name, "first");
}

#[test]
fn multiple_primary_markers_each_emit_primary_key() {
    let attrs = vec![attr("table_name", "t")];
    let decls = vec![decl("a", "String", &["primary"]), decl("b", "u32", &["primary"])];
    let schema = resolve_schema(&attrs, decls).unwrap();
    assert_eq!(
        create_table_sql(&schema),
        "CREATE TABLE IF NOT EXISTS t(a TEXT NOT NULL PRIMARY KEY, b INTEGER NOT NULL PRIMARY KEY)"
    );
}

#[test]
fn field_may_carry_both_markers() {
    let attrs = vec![attr("table_name", "t")];
    let decls = vec![decl("a", "String", &["primary", "index"])];
    let schema = resolve_schema(&attrs, decls).unwrap();
    assert!(schema.fields[0].is_primary);
    assert!(schema.fields[0].is_indexed);
    assert_eq!(index_sqls(&schema)[0], "CREATE INDEX IF NOT EXISTS idx_t_a ON t(a)");
}

#[test]
fn empty_field_list_statements() {
    let schema = RecordSchema { table_name: "t".to_string(), fields: Vec::new() };
    assert_eq!(create_table_sql(&schema), "CREATE TABLE IF NOT EXISTS t()");
    assert_eq!(insert_sql(&schema), "INSERT INTO t() VALUES ()");
    assert_eq!(select_sql(&schema), "SELECT  FROM t");
}

#[test]
fn hand_written_schema_matches_resolved_schema() {
    let schema = RecordSchema {
        table_name: "video".to_string(),
        fields: vec![
            Field {
                name: "name".to_string(),
                storage_type: StorageType::Text,
                is_primary: true,
                is_indexed: false,
            },
            Field {
                name: "tag".to_string(),
                storage_type: StorageType::Text,
                is_primary: false,
                is_indexed: true,
            },
        ],
    };
    assert_eq!(
        create_table_sql(&schema),
        "CREATE TABLE IF NOT EXISTS video(name TEXT NOT NULL PRIMARY KEY, tag TEXT NOT NULL)"
    );
    assert_eq!(index_sqls(&schema), vec!["CREATE INDEX IF NOT EXISTS idx_video_tag ON video(tag)"]);
}
