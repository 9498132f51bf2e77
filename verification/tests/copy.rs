use pg_gateway::catalog::types::IndexCatalog;
use pg_gateway::error::UserError;
use pg_gateway::row::RowMap;
use pg_gateway::schema::{ColumnSchema, TableSchema};
use pg_gateway::server::copy::{
    decode_copy_field, CopyInState, CopyLine, CopySessions, IndexFacts, PendingWrite,
};
use pg_gateway::server::copy_text::{
    buffered_lines, drop_buffered_lines, parse_copy_in_options, split_copy_fields,
    split_csv_copy_fields, CopyCsvOption, CopyInFormat, CopyInOptions, CopyLegacyOption,
    CopyOption,
};
use pg_gateway::server::load_data::{
    mysql_load_data_local_filename, parse_mysql_load_data_local,
};
use pg_gateway::types::{ColumnValue, DataType};

fn failed<T>(result: Result<T, UserError>) -> UserError {
    match result {
        Ok(_) => panic!("the call went through"),
        Err(error) => error,
    }
}

fn column(name: &str, data_type: DataType, primary_key: bool) -> ColumnSchema {
    ColumnSchema {
        column_id: 0,
        name: name.to_string(),
        data_type,
        primary_key,
        nullable: !primary_key,
        default: None,
        on_update: None,
        character_set: None,
        collation: None,
    }
}

fn table() -> TableSchema {
    TableSchema {
        table_name: "t".to_string(),
        table_id: 4,
        schema_version: 1,
        table_epoch: 1,
        primary_key: "id".to_string(),
        check_constraints: Vec::new(),
        unique_constraints: Vec::new(),
        foreign_keys: Vec::new(),
        columns: vec![
            column("id", DataType::Int32, true),
            column("name", DataType::Text, false),
        ],
    }
}

fn index(unique: bool) -> IndexCatalog {
    IndexCatalog {
        index_id: 9,
        database_id: 1,
        schema_id: 1,
        table_id: 4,
        schema_name: "public".to_string(),
        table_name: "t".to_string(),
        index_name: "t_name_idx".to_string(),
        column_name: "name".to_string(),
        column_names: vec!["name".to_string()],
        unique,
    }
}

fn state(options: CopyInOptions, indexes: Vec<IndexCatalog>) -> CopyInState {
    CopyInState {
        session_id: 1,
        use_session_transaction: false,
        database_name: "postgres".to_string(),
        schema_name: "public".to_string(),
        schema: table(),
        indexes,
        columns: vec!["id".to_string(), "name".to_string()],
        options,
        buffer: Vec::new(),
        pending_writes: Vec::new(),
        pending_rows: 0,
        inserted_rows: 0,
    }
}

fn csv() -> CopyInOptions {
    let mut options = CopyInOptions::new();
    options.format = CopyInFormat::Csv;
    options.delimiter = ',';
    options.null = String::new();
    options
}

fn words(fields: Vec<String>) -> Vec<String> {
    fields
}

#[test]
fn text_options_are_the_default() {
    let options = parse_copy_in_options(&vec![], &vec![]).unwrap();
    assert!(matches!(options.format, CopyInFormat::Text));
    assert_eq!(options.delimiter, '\t');
    assert_eq!(options.null, "\\N");
    assert!(!options.header);
}

#[test]
fn csv_options_have_their_own_marks() {
    let asked = vec![
        CopyOption::Format { name: "CSV".to_string() },
        CopyOption::Header { header: true },
    ];
    let options = parse_copy_in_options(&asked, &vec![]).unwrap();
    assert!(matches!(options.format, CopyInFormat::Csv));
    assert_eq!(options.delimiter, ',');
    assert!(options.header);
    let legacy = vec![CopyLegacyOption::Csv {
        options: vec![CopyCsvOption::Quote { quote: '\'' }],
    }];
    let options = parse_copy_in_options(&vec![], &legacy).unwrap();
    assert_eq!(options.quote, '\'');
    assert_eq!(options.null, "");
}

#[test]
fn options_that_are_not_there_are_refused() {
    let binary = vec![CopyOption::Format { name: "binary".to_string() }];
    assert_eq!(
        failed(parse_copy_in_options(&binary, &vec![])).message,
        "binary COPY is not supported yet"
    );
    let other = vec![CopyOption::Format { name: "xml".to_string() }];
    assert_eq!(
        failed(parse_copy_in_options(&other, &vec![])).message,
        "COPY format 'xml' is not supported"
    );
    let encoding = vec![CopyOption::Encoding { encoding: "latin1".to_string() }];
    assert_eq!(
        failed(parse_copy_in_options(&encoding, &vec![])).message,
        "COPY ENCODING other than UTF8 is not supported yet"
    );
    assert_eq!(
        failed(parse_copy_in_options(&vec![CopyOption::Force], &vec![])).message,
        "COPY FORCE_* options are not supported yet"
    );
    assert_eq!(
        failed(parse_copy_in_options(&vec![], &vec![CopyLegacyOption::Binary])).message,
        "binary COPY is not supported yet"
    );
    assert_eq!(
        failed(parse_copy_in_options(&vec![], &vec![CopyLegacyOption::Other])).message,
        "COPY legacy option is not supported yet"
    );
    let wide = vec![CopyOption::Delimiter { delimiter: '\u{20ac}' }];
    let error = failed(parse_copy_in_options(&wide, &vec![]));
    assert_eq!(error.code, "22023");
    assert_eq!(error.message, "COPY delimiter must be a single-byte character");
}

#[test]
fn csv_fields_are_split_at_their_marks() {
    let fields = split_csv_copy_fields("1,\"a,\"\"b\"\"\",", &csv()).unwrap();
    assert_eq!(words(fields), vec!["1", "a,\"b\"", ""]);
    let error = failed(split_csv_copy_fields("1,\"a", &csv()));
    assert_eq!(error.code, "22P04");
    assert_eq!(error.message, "unterminated CSV quoted field");
}

#[test]
fn text_fields_are_split_at_the_delimiter() {
    let fields = split_copy_fields("1\tx y\t\\N", &CopyInOptions::new()).unwrap();
    assert_eq!(words(fields), vec!["1", "x y", "\\N"]);
}

#[test]
fn lines_may_come_in_pieces() {
    let mut buffer = b"a\nb\nc".to_vec();
    let lines = buffered_lines(&buffer, false);
    assert_eq!(lines, vec![b"a".to_vec(), b"b".to_vec()]);
    drop_buffered_lines(&mut buffer, false);
    assert_eq!(buffer, b"c".to_vec());
    buffer.extend_from_slice(b"d");
    assert_eq!(buffered_lines(&buffer, false).len(), 0);
    assert_eq!(buffered_lines(&buffer, true), vec![b"cd".to_vec()]);
    drop_buffered_lines(&mut buffer, true);
    assert!(buffer.is_empty());
}

#[test]
fn a_header_is_skipped_once() {
    let mut options = csv();
    options.header = true;
    options.header_pending = true;
    let mut state = state(options, vec![]);
    assert!(matches!(state.read_line(&b"id,name".to_vec()), Ok(CopyLine::Skip)));
    match state.read_line(&b"1,a\r".to_vec()) {
        Ok(CopyLine::Fields { fields }) => assert_eq!(fields, vec!["1", "a"]),
        _ => panic!("the line was not read"),
    }
}

#[test]
fn a_line_with_other_bytes_or_fields_is_refused() {
    let mut state = state(CopyInOptions::new(), vec![]);
    let error = failed(state.read_line(&vec![0xff, b'a']));
    assert_eq!(error.code, "22021");
    assert_eq!(
        error.message,
        "COPY input is not valid UTF-8: invalid utf-8 sequence of 1 bytes from index 0"
    );
    let error = failed(state.read_line(&b"1".to_vec()));
    assert_eq!(error.code, "22P04");
    assert_eq!(error.message, "COPY row has 1 fields but target expects 2");
}

#[test]
fn fields_become_values() {
    let options = CopyInOptions::new();
    let unused = Ok(ColumnValue::Null);
    let int = |raw: &str, kind: DataType| decode_copy_field(raw, &kind, &options, &unused);
    assert_eq!(int("-7", DataType::Int16).unwrap(), ColumnValue::Int16(-7));
    assert_eq!(int("70000", DataType::Int32).unwrap(), ColumnValue::Int32(70000));
    assert_eq!(int("+5", DataType::Int64).unwrap(), ColumnValue::Int64(5));
    assert_eq!(int("\\N", DataType::Int64).unwrap(), ColumnValue::Null);
    assert_eq!(int("TRUE", DataType::Boolean).unwrap(), ColumnValue::Boolean(true));
    assert_eq!(int("f", DataType::Boolean).unwrap(), ColumnValue::Boolean(false));
    let read = Ok(ColumnValue::Text("some".to_string()));
    assert_eq!(
        decode_copy_field("some", &DataType::Text, &options, &read).unwrap(),
        ColumnValue::Text("some".to_string())
    );
    let error = failed(int("x1", DataType::Int32));
    assert_eq!(error.code, "22P02");
    assert_eq!(error.message, "invalid INT4 value 'x1': invalid digit found in string");
    assert_eq!(
        failed(int("40000", DataType::Int16)).message,
        "invalid INT2 value '40000': number too large to fit in target type"
    );
    assert_eq!(
        failed(int("", DataType::Int64)).message,
        "invalid INT8 value '': cannot parse integer from empty string"
    );
    assert_eq!(failed(int("maybe", DataType::Boolean)).message, "invalid BOOL value 'maybe'");
}

#[test]
fn whole_numbers_are_read_up_to_their_bounds() {
    let options = CopyInOptions::new();
    let unused = Ok(ColumnValue::Null);
    let int = |raw: &str, kind: DataType| decode_copy_field(raw, &kind, &options, &unused);
    assert_eq!(int("-32768", DataType::Int16).unwrap(), ColumnValue::Int16(i16::MIN));
    assert_eq!(int("32767", DataType::Int16).unwrap(), ColumnValue::Int16(i16::MAX));
    assert_eq!(int("-2147483648", DataType::Int32).unwrap(), ColumnValue::Int32(i32::MIN));
    assert_eq!(int("0002147483647", DataType::Int32).unwrap(), ColumnValue::Int32(i32::MAX));
    assert_eq!(
        int("-9223372036854775808", DataType::Int64).unwrap(),
        ColumnValue::Int64(i64::MIN)
    );
    assert_eq!(
        int("9223372036854775807", DataType::Int64).unwrap(),
        ColumnValue::Int64(i64::MAX)
    );
    assert_eq!(int("-0", DataType::Int64).unwrap(), ColumnValue::Int64(0));
    assert_eq!(
        failed(int("-32769", DataType::Int16)).message,
        "invalid INT2 value '-32769': number too small to fit in target type"
    );
    assert_eq!(
        failed(int("2147483648", DataType::Int32)).message,
        "invalid INT4 value '2147483648': number too large to fit in target type"
    );
    assert_eq!(
        failed(int("9223372036854775808", DataType::Int64)).message,
        "invalid INT8 value '9223372036854775808': number too large to fit in target type"
    );
    for raw in ["+", "-", " 1", "1 ", "1.0", "--1", "\u{663}"] {
        assert_eq!(
            failed(int(raw, DataType::Int32)).message,
            format!("invalid INT4 value '{raw}': invalid digit found in string")
        );
    }
}

#[test]
fn a_row_takes_its_key_or_is_refused() {
    let state = state(CopyInOptions::new(), vec![]);
    let fields = vec!["5".to_string(), "five".to_string()];
    let parsed = vec![Ok(ColumnValue::Int32(5)), Ok(ColumnValue::Text("five".to_string()))];
    let row = state.row_of_fields(&fields, &parsed).unwrap();
    assert_eq!(row.value_or_null("name"), ColumnValue::Text("five".to_string()));
    let key = state.key_of_row(&row, &ColumnValue::Int64(1), vec![]).unwrap();
    assert_eq!(key, ColumnValue::Int32(5));
    let error = failed(state.key_of_row(&RowMap::new(), &ColumnValue::Int64(1), vec![]));
    assert_eq!(error.code, "23502");
}

fn facts(stored: Vec<ColumnValue>) -> Vec<IndexFacts> {
    vec![IndexFacts { key: vec![1], prefix: vec![2], stored, old_entry_found: false }]
}

fn a_row() -> RowMap {
    let mut row = RowMap::new();
    row.insert("id".to_string(), ColumnValue::Int32(5));
    row.insert("name".to_string(), ColumnValue::Text("five".to_string()));
    row
}

#[test]
fn rows_are_written_in_batches() {
    let mut state = state(CopyInOptions::new(), vec![]);
    let write = PendingWrite { key: vec![7], value: vec![8] };
    let full = state
        .add_row(&a_row(), &ColumnValue::Int32(5), write, &vec![], 2, 100)
        .unwrap();
    assert!(!full);
    let write = PendingWrite { key: vec![9], value: vec![8] };
    let full = state
        .add_row(&a_row(), &ColumnValue::Int32(6), write, &vec![], 2, 100)
        .unwrap();
    assert!(full);
    let writes = state.take_writes();
    assert!(writes.iter().any(|write| write.key == vec![7]));
    assert!(state.pending_writes.is_empty());
    assert_eq!(state.pending_rows, 0);
    state.count_row();
    assert_eq!(state.inserted_rows, 1);
}

#[test]
fn a_value_that_is_there_is_refused_by_a_unique_index() {
    let mut state = state(CopyInOptions::new(), vec![index(true)]);
    let write = PendingWrite { key: vec![7], value: vec![8] };
    let error = failed(state.add_row(
        &a_row(),
        &ColumnValue::Int32(5),
        write,
        &facts(vec![ColumnValue::Int32(4)]),
        10,
        100,
    ));
    assert_eq!(error.code, "23505");
    assert_eq!(error.message, "duplicate key value violates unique constraint 't_name_idx'");
}

#[test]
fn copies_are_kept_by_session() {
    let mut sessions = CopySessions::new();
    assert_eq!(failed(sessions.take_copy(1)).message, "COPY IN state not initialized");
    assert_eq!(
        failed(sessions.take_load(1)).message,
        "LOAD DATA LOCAL state not initialized"
    );
    sessions.keep(1, state(CopyInOptions::new(), vec![]));
    assert!(sessions.take_copy(2).is_err());
    assert!(sessions.take_copy(1).is_ok());
    assert!(sessions.take_copy(1).is_err());
    sessions.keep(1, state(CopyInOptions::new(), vec![]));
    let error = sessions.on_copy_fail(1, "stop");
    assert_eq!(error.code, "XX000");
    assert_eq!(error.message, "COPY IN terminated by client: stop");
    assert!(sessions.take_copy(1).is_err());
}

#[test]
fn a_load_statement_is_read() {
    let spec = parse_mysql_load_data_local(
        "LOAD DATA LOCAL INFILE '/tmp/a.csv' INTO TABLE `app`.`t` FIELDS TERMINATED BY ',' \
         LINES TERMINATED BY '\\n' IGNORE 1 LINES (id, `name`);",
    )
    .unwrap();
    assert_eq!(spec.filename, "/tmp/a.csv");
    assert_eq!(spec.table_name, "app.t");
    assert_eq!(spec.columns, vec!["id", "name"]);
    assert_eq!(spec.options.delimiter, ',');
    assert!(spec.options.header);
    assert_eq!(
        mysql_load_data_local_filename("load data local infile 'x' into table t"),
        Some("x".to_string())
    );
    assert_eq!(mysql_load_data_local_filename("select 1"), None);
}

#[test]
fn other_load_statements_are_refused() {
    let refused = |query: &str| failed(parse_mysql_load_data_local(query)).message;
    assert_eq!(refused("select 1"), "not a LOAD DATA LOCAL INFILE statement");
    assert_eq!(
        refused("LOAD DATA LOCAL INFILE x"),
        "LOAD DATA LOCAL INFILE requires a filename"
    );
    assert_eq!(
        refused("LOAD DATA LOCAL INFILE 'x' t"),
        "LOAD DATA LOCAL INFILE requires INTO TABLE"
    );
    assert_eq!(
        refused("LOAD DATA LOCAL INFILE 'x' INTO TABLE "),
        "LOAD DATA requires a table name"
    );
    let start = "LOAD DATA LOCAL INFILE 'x' INTO TABLE t ";
    assert_eq!(
        refused(&format!("{start}(a, b")),
        "LOAD DATA column list is unterminated"
    );
    assert_eq!(
        refused(&format!("{start}FIELDS TERMINATED BY 5")),
        "FIELDS TERMINATED BY requires a string literal"
    );
    assert_eq!(
        refused(&format!("{start}FIELDS TERMINATED BY 'ab'")),
        "FIELDS TERMINATED BY requires a single character"
    );
    assert_eq!(
        refused(&format!("{start}LINES TERMINATED BY ';'")),
        "LOAD DATA currently supports only LINES TERMINATED BY '\\n'"
    );
    assert_eq!(
        refused(&format!("{start}IGNORE 2 LINES")),
        "LOAD DATA currently supports only IGNORE 1 LINES"
    );
    assert_eq!(refused(&format!("{start}IGNORE 1 ROWS")), "IGNORE requires LINES");
    assert_eq!(
        refused(&format!("{start}SET a = 1")),
        "unsupported LOAD DATA clause near 'SET a = 1'"
    );
}
