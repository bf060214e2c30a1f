use knowledge_store::schema::{
    migrate, schema_registry, ColumnDef, MigrationStep, SchemaState, TableDef, TableState, SCHEMA_VERSION,
};
use knowledge_store::store::StoreError;

fn strs(v: &[&str]) -> Vec<String> {
    v.iter().map(|s| s.to_string()).collect()
}

fn table<'a>(state: &'a SchemaState, name: &str) -> &'a TableState {
    state.tables.iter().find(|t| t.name == name).unwrap()
}

#[test]
fn fresh_store_gets_every_table() {
    let defs = schema_registry();
    let mut state = SchemaState { version: 0, tables: vec![] };
    let steps = migrate(&mut state, &defs, SCHEMA_VERSION).unwrap();
    assert_eq!(steps.len(), defs.len());
    assert_eq!(defs.len(), 12);
    assert!(steps.iter().all(|s| matches!(s, MigrationStep::CreateTable { .. })));
    assert_eq!(state.version, SCHEMA_VERSION);
    assert_eq!(table(&state, "document_items").columns.last().unwrap(), "parents");
}

#[test]
fn second_run_changes_nothing() {
    let defs = schema_registry();
    let mut state = SchemaState { version: 0, tables: vec![] };
    migrate(&mut state, &defs, SCHEMA_VERSION).unwrap();
    let cols: Vec<Vec<String>> = state.tables.iter().map(|t| t.columns.clone()).collect();
    let steps = migrate(&mut state, &defs, SCHEMA_VERSION).unwrap();
    assert!(steps.is_empty());
    let again: Vec<Vec<String>> = state.tables.iter().map(|t| t.columns.clone()).collect();
    assert_eq!(cols, again);
    // even with the version reset, present columns are not added twice
    state.version = 0;
    let steps = migrate(&mut state, &defs, SCHEMA_VERSION).unwrap();
    assert!(steps.is_empty());
}

#[test]
fn old_articles_table_gains_columns_and_keeps_rows() {
    let defs = schema_registry();
    let old_cols = strs(&["id", "title", "author", "create_time", "update_time", "tags", "content"]);
    let row = strs(&["1", "Hello", "me", "10", "20", "[]", "body"]);
    let mut state = SchemaState {
        version: 0,
        tables: vec![TableState { name: "articles".to_string(), columns: old_cols.clone(), rows: vec![row.clone()] }],
    };
    let steps = migrate(&mut state, &defs, SCHEMA_VERSION).unwrap();
    let t = table(&state, "articles");
    assert_eq!(&t.columns[..old_cols.len()], &old_cols[..]);
    assert_eq!(&t.columns[old_cols.len()..], &strs(&["links", "banner_bg", "is_top", "is_delete"])[..]);
    assert_eq!(&t.rows[0][..row.len()], &row[..]);
    assert_eq!(&t.rows[0][row.len()..], &strs(&["", "", "0", "0"])[..]);
    let added = steps.iter().filter(|s| matches!(s, MigrationStep::AddColumn { .. })).count();
    assert_eq!(added, 4);
}

#[test]
fn current_version_is_left_alone() {
    let defs = schema_registry();
    let mut state = SchemaState { version: SCHEMA_VERSION, tables: vec![] };
    let steps = migrate(&mut state, &defs, SCHEMA_VERSION).unwrap();
    assert!(steps.is_empty());
    assert!(state.tables.is_empty());
}

#[test]
fn repeated_names_are_refused() {
    let col = |n: &str| ColumnDef { name: n.to_string(), decl: "TEXT".to_string(), default_value: String::new() };
    let defs = vec![
        TableDef { name: "a".to_string(), columns: vec![col("x")] },
        TableDef { name: "a".to_string(), columns: vec![col("y")] },
    ];
    let mut state = SchemaState { version: 0, tables: vec![] };
    assert!(matches!(migrate(&mut state, &defs, 1), Err(StoreError::SchemaError)));
    let defs = vec![TableDef { name: "a".to_string(), columns: vec![col("x"), col("x")] }];
    assert!(matches!(migrate(&mut state, &defs, 1), Err(StoreError::SchemaError)));
    let mut bad = SchemaState {
        version: 0,
        tables: vec![TableState { name: "a".to_string(), columns: strs(&["x"]), rows: vec![vec![]] }],
    };
    let defs = vec![TableDef { name: "a".to_string(), columns: vec![col("x")] }];
    assert!(matches!(migrate(&mut bad, &defs, 1), Err(StoreError::SchemaError)));
    assert_eq!(bad.version, 0);
}
