use pg_gateway::catalog::codec::{decode_table_schema, resolve_table_reference};
use pg_gateway::catalog::types::{CatalogStore, DEFAULT_DATABASE_NAME, DEFAULT_SCHEMA_NAME};
use pg_gateway::mem_store::MemoryKvStore;
use pg_gateway::mode::GatewayMode;
use pg_gateway::schema::{ColumnSchema, TableSchema};
use pg_gateway::types::DataType;

fn catalog() -> CatalogStore<MemoryKvStore> {
    CatalogStore::new(MemoryKvStore::new())
}

fn column(name: &str, data_type: DataType, primary_key: bool) -> ColumnSchema {
    ColumnSchema {
        column_id: 0,
        name: name.to_string(),
        data_type,
        primary_key,
        nullable: !primary_key,
        default: None,
        on_update: None,
        character_set: None,
        collation: None,
    }
}

fn test_schema() -> TableSchema {
    TableSchema {
        table_name: "users".to_string(),
        table_id: 7,
        schema_version: 1,
        table_epoch: 1,
        primary_key: "id".to_string(),
        check_constraints: Vec::new(),
        unique_constraints: Vec::new(),
        foreign_keys: Vec::new(),
        columns: vec![
            column("id", DataType::Int32, true),
            column("name", DataType::Text, false),
        ],
    }
}

#[test]
fn bootstrap_creates_default_database_and_schema() {
    let mut catalog = catalog();
    catalog.ensure_bootstrap().unwrap();

    let db = catalog.get_database(DEFAULT_DATABASE_NAME).unwrap().unwrap();
    assert_eq!(db.database_id, 1);

    let schema = catalog
        .get_schema(db.database_id, DEFAULT_SCHEMA_NAME)
        .unwrap()
        .unwrap();
    assert_eq!(schema.schema_id, 1);
}

#[test]
fn bootstrap_for_mode_records_compat_mode() {
    let mut catalog = catalog();
    catalog.ensure_bootstrap_for_mode(GatewayMode::Postgres).unwrap();

    assert_eq!(catalog.compat_mode().unwrap(), Some(GatewayMode::Postgres));
}

#[test]
fn bootstrap_for_mode_rejects_mismatched_mode() {
    let mut catalog = catalog();
    catalog.ensure_bootstrap_for_mode(GatewayMode::Postgres).unwrap();

    let error = catalog
        .ensure_bootstrap_for_mode(GatewayMode::MySql)
        .unwrap_err();
    assert!(error.message.contains("cannot be opened in mysql mode"));
}

#[test]
fn create_database_creates_public_schema() {
    let mut catalog = catalog();
    let db = catalog.create_database("appdb", false).unwrap();
    assert_eq!(db.database_name, "appdb");

    let schema = catalog
        .get_schema(db.database_id, DEFAULT_SCHEMA_NAME)
        .unwrap()
        .unwrap();
    assert_eq!(schema.schema_name, DEFAULT_SCHEMA_NAME);
}

#[test]
fn list_databases_includes_created_database() {
    let mut catalog = catalog();
    catalog.create_database("appdb", false).unwrap();
    catalog.create_database("analytics", false).unwrap();

    let names = catalog
        .list_databases()
        .unwrap()
        .into_iter()
        .map(|db| db.database_name)
        .collect::<Vec<_>>();
    assert_eq!(names, vec!["analytics", "appdb", DEFAULT_DATABASE_NAME]);
}

#[test]
fn store_and_load_table_via_catalog() {
    let mut catalog = catalog();
    catalog.ensure_bootstrap().unwrap();
    catalog
        .store_table(DEFAULT_DATABASE_NAME, DEFAULT_SCHEMA_NAME, &test_schema())
        .unwrap();

    let table = catalog
        .load_table(DEFAULT_DATABASE_NAME, DEFAULT_SCHEMA_NAME, "users")
        .unwrap()
        .unwrap();
    assert_eq!(table.schema.table_id, 7);
    assert_eq!(table.schema.primary_key, "id");
}

#[test]
fn create_and_list_index_via_catalog() {
    let mut catalog = catalog();
    catalog.ensure_bootstrap().unwrap();
    catalog
        .store_table(DEFAULT_DATABASE_NAME, DEFAULT_SCHEMA_NAME, &test_schema())
        .unwrap();

    let index = catalog
        .create_index(
            DEFAULT_DATABASE_NAME,
            DEFAULT_SCHEMA_NAME,
            "users",
            "users_name_idx",
            &vec!["name".to_string()],
            false,
            false,
        )
        .unwrap()
        .unwrap();
    assert_eq!(index.index_name, "users_name_idx");

    let indexes = catalog.list_indexes_for_table(7).unwrap();
    assert_eq!(indexes.len(), 1);
    assert_eq!(indexes[0].column_name, "name");
    assert_eq!(indexes[0].column_names, vec!["name"]);
}

#[test]
fn resolve_table_reference_defaults_to_public() {
    assert_eq!(
        resolve_table_reference("users").unwrap(),
        ("public".to_string(), "users".to_string())
    );
    assert_eq!(
        resolve_table_reference("analytics.users").unwrap(),
        ("analytics".to_string(), "users".to_string())
    );
}

fn stored() -> CatalogStore<MemoryKvStore> {
    let mut catalog = catalog();
    catalog
        .store_table(DEFAULT_DATABASE_NAME, DEFAULT_SCHEMA_NAME, &test_schema())
        .unwrap();
    catalog
}

#[test]
fn opening_twice_changes_nothing() {
    let mut catalog = catalog();
    catalog.ensure_bootstrap().unwrap();
    catalog.ensure_bootstrap().unwrap();
    let schemas = catalog.list_schemas(DEFAULT_DATABASE_NAME).unwrap();
    assert_eq!(schemas.len(), 1);
    assert_eq!(schemas[0].schema_name, DEFAULT_SCHEMA_NAME);
}

#[test]
fn a_database_can_be_made_once() {
    let mut catalog = catalog();
    let first = catalog.create_database("appdb", false).unwrap();
    let error = catalog.create_database("appdb", false).unwrap_err();
    assert_eq!(error.code, "42P04");
    let again = catalog.create_database("appdb", true).unwrap();
    assert_eq!(again.database_id, first.database_id);
}

#[test]
fn a_dropped_database_is_gone_with_its_schemas() {
    let mut catalog = catalog();
    catalog.create_database("appdb", false).unwrap();
    catalog.create_schema("appdb", "s", false).unwrap();
    let dropped = catalog.drop_database("appdb").unwrap().unwrap();
    assert_eq!(dropped.database_name, "appdb");
    assert!(catalog.get_database("appdb").unwrap().is_none());
    assert!(catalog.drop_database("appdb").unwrap().is_none());
}

#[test]
fn schemas_are_made_and_dropped() {
    let mut catalog = catalog();
    let made = catalog.create_schema(DEFAULT_DATABASE_NAME, "s", false).unwrap();
    let error = catalog.create_schema(DEFAULT_DATABASE_NAME, "s", false).unwrap_err();
    assert_eq!(error.code, "42P06");
    let same = catalog.create_schema(DEFAULT_DATABASE_NAME, "s", true).unwrap();
    assert_eq!(same.schema_id, made.schema_id);
    let missing = catalog.create_schema("nowhere", "s", false).unwrap_err();
    assert_eq!(missing.code, "3D000");
    assert_eq!(missing.message, "database 'nowhere' does not exist");
    assert!(catalog.drop_schema(DEFAULT_DATABASE_NAME, "s").unwrap().is_some());
    assert!(catalog.drop_schema(DEFAULT_DATABASE_NAME, "s").unwrap().is_none());
}

#[test]
fn a_table_is_read_back_as_it_was_stored() {
    let mut catalog = stored();
    let table = catalog
        .load_table(DEFAULT_DATABASE_NAME, DEFAULT_SCHEMA_NAME, "users")
        .unwrap()
        .unwrap();
    assert_eq!(table.schema.table_name, "users");
    assert_eq!(table.schema.columns.len(), 2);
    assert_eq!(table.schema.columns[0].name, "id");
    assert!(table.schema.columns[0].primary_key);
    assert_eq!(table.schema.columns[1].data_type.to_str(), DataType::Text.to_str());
    assert!(catalog
        .load_table(DEFAULT_DATABASE_NAME, DEFAULT_SCHEMA_NAME, "others")
        .unwrap()
        .is_none());
}

#[test]
fn a_renamed_table_is_found_by_its_new_name() {
    let mut catalog = stored();
    let renamed = catalog
        .rename_table(DEFAULT_DATABASE_NAME, DEFAULT_SCHEMA_NAME, "users", "people")
        .unwrap();
    assert_eq!(renamed.table_name, "people");
    assert!(catalog
        .load_table(DEFAULT_DATABASE_NAME, DEFAULT_SCHEMA_NAME, "users")
        .unwrap()
        .is_none());
    assert_eq!(
        catalog
            .load_table(DEFAULT_DATABASE_NAME, DEFAULT_SCHEMA_NAME, "people")
            .unwrap()
            .unwrap()
            .schema
            .table_id,
        7
    );
    let error = catalog
        .rename_table(DEFAULT_DATABASE_NAME, DEFAULT_SCHEMA_NAME, "users", "x")
        .unwrap_err();
    assert_eq!(error.code, "42P01");
}

#[test]
fn an_epoch_goes_up_by_one() {
    let mut catalog = stored();
    let bumped = catalog
        .bump_table_epoch(DEFAULT_DATABASE_NAME, DEFAULT_SCHEMA_NAME, "users")
        .unwrap();
    assert_eq!(bumped.schema.table_epoch, 2);
}

#[test]
fn a_dropped_table_takes_its_indexes_along() {
    let mut catalog = stored();
    catalog
        .create_index(
            DEFAULT_DATABASE_NAME,
            DEFAULT_SCHEMA_NAME,
            "users",
            "users_name_idx",
            &vec!["name".to_string()],
            true,
            false,
        )
        .unwrap();
    let again = catalog
        .create_index(
            DEFAULT_DATABASE_NAME,
            DEFAULT_SCHEMA_NAME,
            "users",
            "users_name_idx",
            &vec!["name".to_string()],
            true,
            false,
        )
        .unwrap_err();
    assert_eq!(again.code, "42P07");
    assert!(catalog
        .drop_table(DEFAULT_DATABASE_NAME, DEFAULT_SCHEMA_NAME, "users")
        .unwrap()
        .is_some());
    assert!(catalog.list_indexes_for_table(7).unwrap().is_empty());
    assert!(catalog.list_tables(DEFAULT_DATABASE_NAME).unwrap().is_empty());
    assert!(catalog
        .drop_table(DEFAULT_DATABASE_NAME, DEFAULT_SCHEMA_NAME, "users")
        .unwrap()
        .is_none());
}

#[test]
fn views_are_kept_by_name() {
    let mut catalog = catalog();
    let made = catalog
        .store_view(DEFAULT_DATABASE_NAME, DEFAULT_SCHEMA_NAME, "v", "SELECT 1", false, false)
        .unwrap()
        .unwrap();
    assert_eq!(made.definition, "SELECT 1");
    let error = catalog
        .store_view(DEFAULT_DATABASE_NAME, DEFAULT_SCHEMA_NAME, "v", "SELECT 2", false, false)
        .unwrap_err();
    assert_eq!(error.code, "42P07");
    catalog
        .store_view(DEFAULT_DATABASE_NAME, DEFAULT_SCHEMA_NAME, "v", "SELECT 3", true, false)
        .unwrap();
    let found = catalog
        .load_view(DEFAULT_DATABASE_NAME, DEFAULT_SCHEMA_NAME, "v")
        .unwrap()
        .unwrap();
    assert_eq!(found.definition, "SELECT 3");
    assert_eq!(catalog.list_views(DEFAULT_DATABASE_NAME).unwrap().len(), 1);
    assert!(catalog
        .drop_view(DEFAULT_DATABASE_NAME, DEFAULT_SCHEMA_NAME, "v")
        .unwrap()
        .is_some());
    assert!(catalog
        .load_view(DEFAULT_DATABASE_NAME, DEFAULT_SCHEMA_NAME, "v")
        .unwrap()
        .is_none());
}

#[test]
fn table_numbers_are_not_given_twice() {
    let mut catalog = catalog();
    let first = catalog.allocate_table_id().unwrap();
    let second = catalog.allocate_table_id().unwrap();
    assert_eq!(second, first + 1);
}

#[test]
fn a_table_in_its_json_form_is_read() {
    let text = br#"{"table_name":"t","table_id":3,"schema_version":1,"table_epoch":1,
        "primary_key":"id","check_constraints":[],"unique_constraints":[],"foreign_keys":[],
        "columns":[{"column_id":1,"name":"id","data_type":"i8","primary_key":true,
        "nullable":false}]}"#;
    let schema = decode_table_schema("t", text).unwrap();
    assert_eq!(schema.table_name, "t");
    assert_eq!(schema.columns[0].name, "id");
    let broken = decode_table_schema("t", b"{").unwrap_err();
    assert_eq!(broken.code, "XX000");
}
