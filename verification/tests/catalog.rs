use sqlite_decode::error::{Error, SchemaField};
use sqlite_decode::record::{ColumnValue, Record};
use sqlite_decode::sqlite_schema::{
    Column, CreateIndexCmd, CreateTableCmd, DdlCommand, Index, SQLiteSchema, SQLiteSchemaRow,
    SchemaEntry, SchemaStore, Table, WhereClause,
};

fn text(s: &str) -> ColumnValue {
    ColumnValue::Text(s.as_bytes().to_vec())
}

fn schema_record(rowid: i64, kind: &str, name: &str, tbl: &str, page: i64, sql: &str) -> Record {
    Record {
        rowid,
        values: vec![text(kind), text(name), text(tbl), ColumnValue::I8(page), text(sql)],
    }
}

fn row(rowid: i64, kind: &str, name: &str, tbl: &str, page: u32, sql: &str) -> SQLiteSchemaRow {
    SQLiteSchemaRow {
        rowid,
        kind: kind.to_string(),
        name: name.to_string(),
        tbl_name: tbl.to_string(),
        rootpage: page,
        sql: sql.to_string(),
    }
}

fn table_entry(name: &str, page: u32, fields: Vec<(&str, bool)>) -> SchemaEntry {
    SchemaEntry {
        row: row(1, "table", name, name, page, "CREATE TABLE ..."),
        ddl: Some(DdlCommand::CreateTable(CreateTableCmd {
            table: name.to_string(),
            fields: fields
                .into_iter()
                .map(|(n, pk)| Column { name: n.to_string(), is_primary_key: pk })
                .collect(),
        })),
    }
}

fn index_entry(name: &str, table: &str, page: u32, fields: Vec<&str>) -> SchemaEntry {
    SchemaEntry {
        row: row(2, "index", name, table, page, "CREATE INDEX ..."),
        ddl: Some(DdlCommand::CreateIndex(CreateIndexCmd {
            name: name.to_string(),
            table: table.to_string(),
            fields: fields.into_iter().map(|f| f.to_string()).collect(),
        })),
    }
}

#[test]
fn schema_row_projection() {
    let rec = schema_record(3, "table", "t", "t", 2, "CREATE TABLE t (a)");
    let row = SQLiteSchemaRow::from_record(&rec).expect("row should project");
    assert_eq!(row.rowid, 3);
    assert_eq!(row.kind, "table");
    assert_eq!(row.name, "t");
    assert_eq!(row.tbl_name, "t");
    assert_eq!(row.rootpage, 2);
    assert_eq!(row.sql, "CREATE TABLE t (a)");
}

#[test]
fn schema_row_rootpage_accepts_any_number() {
    let mut rec = schema_record(1, "table", "t", "t", 0, "x");
    rec.values[3] = ColumnValue::One;
    assert_eq!(SQLiteSchemaRow::from_record(&rec).unwrap().rootpage, 1);
    rec.values[3] = ColumnValue::F64Bits((7.9f64).to_bits());
    assert_eq!(SQLiteSchemaRow::from_record(&rec).unwrap().rootpage, 7);
}

#[test]
fn schema_row_wrong_shapes_name_their_field() {
    let rec = schema_record(1, "table", "t", "t", 2, "x");

    let mut r = Record { rowid: 1, values: rec.values.clone() };
    r.values[0] = ColumnValue::I8(1);
    assert_eq!(
        SQLiteSchemaRow::from_record(&r).unwrap_err(),
        Error::InvalidSchemaShape(SchemaField::Kind)
    );

    let mut r = Record { rowid: 1, values: rec.values.clone() };
    r.values[1] = ColumnValue::Null;
    assert_eq!(
        SQLiteSchemaRow::from_record(&r).unwrap_err(),
        Error::InvalidSchemaShape(SchemaField::Name)
    );

    let mut r = Record { rowid: 1, values: rec.values.clone() };
    r.values[2] = ColumnValue::Blob(vec![1]);
    assert_eq!(
        SQLiteSchemaRow::from_record(&r).unwrap_err(),
        Error::InvalidSchemaShape(SchemaField::TblName)
    );

    let mut r = Record { rowid: 1, values: rec.values.clone() };
    r.values[3] = text("2");
    assert_eq!(
        SQLiteSchemaRow::from_record(&r).unwrap_err(),
        Error::InvalidSchemaShape(SchemaField::Rootpage)
    );

    let mut r = Record { rowid: 1, values: rec.values.clone() };
    r.values.truncate(4);
    assert_eq!(
        SQLiteSchemaRow::from_record(&r).unwrap_err(),
        Error::InvalidSchemaShape(SchemaField::Sql)
    );
}

#[test]
fn schema_table_read_decodes_cells() {
    // One schema-row cell encoded by hand: kind "table" (code 23),
    // name "t" (code 15), tbl_name "t" (code 15), rootpage I8 (code 1),
    // sql of 18 characters (code 49).
    let sql = b"CREATE TABLE t (a)";
    let mut payload: Vec<u8> = vec![0x06, 23, 15, 15, 1, 49];
    payload.extend_from_slice(b"table");
    payload.extend_from_slice(b"t");
    payload.extend_from_slice(b"t");
    payload.push(2);
    payload.extend_from_slice(sql);
    let schema = SQLiteSchema::read(&vec![(9, payload)]).expect("schema should read");
    assert_eq!(schema.rows.len(), 1);
    assert_eq!(schema.rows[0].rowid, 9);
    assert_eq!(schema.rows[0].kind, "table");
    assert_eq!(schema.rows[0].name, "t");
    assert_eq!(schema.rows[0].rootpage, 2);
    assert_eq!(schema.rows[0].sql, "CREATE TABLE t (a)");
}

#[test]
fn schema_table_read_aborts_on_bad_cell() {
    let cells = vec![(1, vec![0x02, 0x0a])];
    assert_eq!(SQLiteSchema::read(&cells).unwrap_err(), Error::InvalidSerialType);
}

#[test]
fn catalog_builds_table_and_attaches_index() {
    let entries = vec![
        table_entry("t", 2, vec![("id", true), ("v", false)]),
        index_entry("idx", "t", 3, vec!["v"]),
    ];
    let store = SchemaStore::read(&entries).expect("catalog should build");
    let t = store.find_table("t").expect("t should be present");
    assert_eq!(t.name, "t");
    assert_eq!(t.rootpage, 2);
    assert_eq!(t.columns.len(), 2);
    assert_eq!(t.columns[0].name, "id");
    assert!(t.columns[0].is_primary_key);
    assert_eq!(t.columns[1].name, "v");
    assert!(!t.columns[1].is_primary_key);
    assert_eq!(t.indexes.len(), 1);
    assert_eq!(t.indexes[0].name, "idx");
    assert_eq!(t.indexes[0].table_name, "t");
    assert_eq!(t.indexes[0].rootpage, 3);
    assert_eq!(t.indexes[0].columns[0], "v");
}

#[test]
fn catalog_ignores_other_commands() {
    let mut view_row = row(3, "view", "w", "w", 0, "CREATE VIEW ...");
    view_row.rowid = 3;
    let entries = vec![
        table_entry("t", 2, vec![("id", true)]),
        SchemaEntry { row: view_row, ddl: Some(DdlCommand::Other) },
    ];
    let store = SchemaStore::read(&entries).expect("catalog should build");
    assert_eq!(store.tables.len(), 1);
    assert!(store.find_table("w").is_none());
}

#[test]
fn catalog_parse_failure_aborts() {
    let entries = vec![
        table_entry("t", 2, vec![("id", true)]),
        SchemaEntry { row: row(2, "table", "u", "u", 4, "garbage"), ddl: None },
    ];
    assert_eq!(SchemaStore::read(&entries).unwrap_err(), Error::SchemaParseError);
}

#[test]
fn orphan_index_aborts_build() {
    let entries = vec![
        table_entry("t", 2, vec![("id", true)]),
        index_entry("idx", "missing", 3, vec!["id"]),
    ];
    assert_eq!(SchemaStore::read(&entries).unwrap_err(), Error::OrphanIndex);
}

#[test]
fn user_tables_exclude_reserved_names() {
    let entries = vec![
        table_entry("sqlite_sequence", 3, vec![("name", false)]),
        table_entry("t", 2, vec![("id", true)]),
    ];
    let store = SchemaStore::read(&entries).expect("catalog should build");
    assert_eq!(store.tables.len(), 2);
    assert_eq!(store.table_names, vec!["t".to_string()]);
    let user = store.user_tables();
    assert_eq!(user.len(), 1);
    assert_eq!(user[0].name, "t");
    assert!(store.find_table("sqlite_sequence").is_none());
    assert!(store.find_table("t").is_some());
}

#[test]
fn user_tables_exclude_reserved_even_when_stored_directly() {
    let store = SchemaStore {
        tables: vec![
            Table {
                name: "sqlite_stat1".to_string(),
                columns: vec![],
                indexes: vec![],
                rootpage: 5,
            },
            Table { name: "data".to_string(), columns: vec![], indexes: vec![], rootpage: 6 },
        ],
        table_names: vec!["data".to_string()],
    };
    let user = store.user_tables();
    assert_eq!(user.len(), 1);
    assert_eq!(user[0].name, "data");
}

#[test]
fn find_applicable_index_cases() {
    let entries = vec![
        table_entry("t", 2, vec![("id", true), ("v", false)]),
        index_entry("idx", "t", 3, vec!["v"]),
    ];
    let store = SchemaStore::read(&entries).expect("catalog should build");
    let t = store.find_table("t").unwrap();
    assert!(t.find_applicable_index(&None).is_none());
    let hit = t.find_applicable_index(&Some(WhereClause { field: "v".to_string() }));
    assert_eq!(hit.expect("index should match").name, "idx");
    let miss = t.find_applicable_index(&Some(WhereClause { field: "nonexistent".to_string() }));
    assert!(miss.is_none());
}

#[test]
fn find_applicable_index_takes_first_match() {
    let entries = vec![
        table_entry("t", 2, vec![("v", false)]),
        index_entry("first", "t", 3, vec!["v"]),
        index_entry("second", "t", 4, vec!["v"]),
    ];
    let store = SchemaStore::read(&entries).expect("catalog should build");
    let t = store.find_table("t").unwrap();
    let hit = t.find_applicable_index(&Some(WhereClause { field: "v".to_string() }));
    assert_eq!(hit.unwrap().name, "first");
}

#[test]
fn table_and_index_find_column() {
    let entries = vec![
        table_entry("t", 2, vec![("id", true), ("v", false)]),
        index_entry("idx", "t", 3, vec!["v", "id"]),
    ];
    let store = SchemaStore::read(&entries).expect("catalog should build");
    let t = store.find_table("t").unwrap();
    let (pos, col) = t.find_column("v").expect("column v exists");
    assert_eq!(pos, 1);
    assert_eq!(col.name, "v");
    assert!(t.find_column("w").is_none());
    let idx: &Index = &t.indexes[0];
    let (ipos, iname) = idx.find_column("id").expect("indexed column exists");
    assert_eq!(ipos, 1);
    assert_eq!(iname, "id");
    assert!(idx.find_column("w").is_none());
}

#[test]
fn duplicate_table_name_keeps_last_registration() {
    let entries = vec![
        table_entry("t", 2, vec![("a", false)]),
        table_entry("t", 7, vec![("b", false)]),
    ];
    let store = SchemaStore::read(&entries).expect("catalog should build");
    assert_eq!(store.tables.len(), 1);
    assert_eq!(store.table_names.len(), 1);
    let t = store.find_table("t").unwrap();
    assert_eq!(t.rootpage, 7);
    assert_eq!(t.columns[0].name, "b");
}

#[test]
fn default_store_is_empty() {
    let store = SchemaStore::default();
    assert!(store.tables.is_empty());
    assert!(store.table_names.is_empty());
}

#[test]
fn table_from_index_wraps_the_orphan() {
    let idx = Index {
        name: "idx".to_string(),
        columns: vec!["v".to_string()],
        table_name: "t".to_string(),
        rootpage: 4,
    };
    let t = Table::from_index(idx);
    assert_eq!(t.name, "t");
    assert!(t.columns.is_empty());
    assert_eq!(t.indexes.len(), 1);
    assert_eq!(t.indexes[0].name, "idx");
    assert_eq!(t.rootpage, 0);
}
