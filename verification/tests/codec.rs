use pg_gateway::codec::{
    cell_key, decode_cell_value, decode_pk_from_cell_key, decode_pk_from_index_entry_key,
    decode_pk_from_row_marker_key, encode_cell_value, encode_primary_key_segment, index_entry_key, index_entry_prefix,
    index_table_prefix, row_marker_key, row_marker_prefix, schema_key, table_data_prefix,
};
use pg_gateway::order::value_less;
use pg_gateway::types::{ColumnValue, DataType, MySqlIntKind};

#[test]
fn roundtrip_cell_int32() {
    let bytes = encode_cell_value(&ColumnValue::Int32(42));
    assert_eq!(
        decode_cell_value(&DataType::Int32, &bytes).unwrap(),
        ColumnValue::Int32(42)
    );
}

#[test]
fn roundtrip_cell_text_and_null() {
    let bytes = encode_cell_value(&ColumnValue::Text("alice".into()));
    assert_eq!(
        decode_cell_value(&DataType::Text, &bytes).unwrap(),
        ColumnValue::Text("alice".into())
    );
    let null_bytes = encode_cell_value(&ColumnValue::Null);
    assert_eq!(
        decode_cell_value(&DataType::Text, &null_bytes).unwrap(),
        ColumnValue::Null
    );
}

#[test]
fn row_marker_int_keys_remain_ordered() {
    let k1 = row_marker_key("db", "public", "t", &ColumnValue::Int32(-1));
    let k2 = row_marker_key("db", "public", "t", &ColumnValue::Int32(0));
    let k3 = row_marker_key("db", "public", "t", &ColumnValue::Int32(10));
    assert!(k1 < k2);
    assert!(k2 < k3);
}

#[test]
fn decode_pk_from_marker_roundtrips() {
    let key = row_marker_key("db", "public", "t", &ColumnValue::Text("alpha".into()));
    let decoded =
        decode_pk_from_row_marker_key(&key, "db", "public", "t", &DataType::Text).unwrap();
    assert_eq!(decoded, ColumnValue::Text("alpha".into()));
}

fn cells() -> Vec<(DataType, ColumnValue)> {
    vec![
        (DataType::Int16, ColumnValue::Int16(-2)),
        (DataType::Int64, ColumnValue::Int64(i64::MIN)),
        (DataType::Float32, ColumnValue::Float32(1.5f32.to_bits())),
        (DataType::Float64, ColumnValue::Float64((-0.25f64).to_bits())),
        (
            DataType::Numeric { precision: Some(10), scale: Some(2) },
            ColumnValue::Numeric("12.50".to_string()),
        ),
        (DataType::Date, ColumnValue::Date("2024-01-31".to_string())),
        (
            DataType::Timestamp,
            ColumnValue::Timestamp("2024-01-31 10:00:00".to_string()),
        ),
        (DataType::Uuid, ColumnValue::Uuid("00000000-0000-0000-0000-000000000001".to_string())),
        (DataType::Json, ColumnValue::Json("{}".to_string())),
        (DataType::Boolean, ColumnValue::Boolean(true)),
        (DataType::Bytea, ColumnValue::Bytea(vec![0, 255, 7])),
        (
            DataType::Array(Box::new(DataType::Text)),
            ColumnValue::Array(vec![ColumnValue::Text("a".to_string()), ColumnValue::Null]),
        ),
    ]
}

#[test]
fn cells_of_every_kind_are_read_back() {
    for (data_type, value) in cells() {
        let bytes = encode_cell_value(&value);
        assert_eq!(decode_cell_value(&data_type, &bytes).unwrap(), value);
        let null = encode_cell_value(&ColumnValue::Null);
        assert_eq!(decode_cell_value(&data_type, &null).unwrap(), ColumnValue::Null);
    }
}

#[test]
fn cells_have_a_tag_and_a_length() {
    assert_eq!(encode_cell_value(&ColumnValue::Null), vec![0]);
    assert_eq!(encode_cell_value(&ColumnValue::Int16(258)), vec![1, 1, 2]);
    assert_eq!(
        encode_cell_value(&ColumnValue::Text("hi".to_string())),
        vec![1, 0, 0, 0, 2, b'h', b'i']
    );
    assert_eq!(encode_cell_value(&ColumnValue::Boolean(true)), vec![1, 1]);
}

#[test]
fn damaged_cells_are_refused() {
    let empty = decode_cell_value(&DataType::Int32, &[]).unwrap_err();
    assert_eq!(empty.code, "XX000");
    assert_eq!(empty.message, "empty cell data");
    assert!(decode_cell_value(&DataType::Int32, &[1, 0, 0]).is_err());
    assert!(decode_cell_value(&DataType::Int32, &[1, 0, 0, 0, 1, 9]).is_err());
    assert!(decode_cell_value(&DataType::Text, &[1, 0, 0, 0, 1, 0xff]).is_err());
}

#[test]
fn keys_of_every_kind_keep_the_order_of_values() {
    let ordered: Vec<Vec<ColumnValue>> = vec![
        vec![ColumnValue::Int16(-5), ColumnValue::Int16(0), ColumnValue::Int16(9)],
        vec![ColumnValue::Int64(i64::MIN), ColumnValue::Int64(-1), ColumnValue::Int64(1)],
        vec![
            ColumnValue::Float64((-2.5f64).to_bits()),
            ColumnValue::Float64(0.0f64.to_bits()),
            ColumnValue::Float64(3.5f64.to_bits()),
        ],
        vec![
            ColumnValue::Text("a".to_string()),
            ColumnValue::Text("ab".to_string()),
            ColumnValue::Text("b".to_string()),
        ],
        vec![ColumnValue::Bytea(vec![1]), ColumnValue::Bytea(vec![1, 1]), ColumnValue::Bytea(vec![2])],
    ];
    for values in ordered {
        let keys: Vec<Vec<u8>> = values
            .iter()
            .map(|value| row_marker_key("db", "public", "t", value))
            .collect();
        assert!(keys[0] < keys[1]);
        assert!(keys[1] < keys[2]);
    }
}

#[test]
fn keys_hold_their_table_and_give_the_value_back() {
    let value = ColumnValue::Int32(5);
    let row = row_marker_key("db", "s", "t", &value);
    let cell = cell_key("db", "s", "t", "c", &value);
    let table = table_data_prefix("db", "s", "t");
    assert!(row.starts_with(&table));
    assert!(cell.starts_with(&table));
    assert!(row.starts_with(&row_marker_prefix("db", "s", "t")));
    assert_eq!(
        decode_pk_from_cell_key(&cell, "db", "s", "t", "c", &DataType::Int32).unwrap(),
        value
    );
    let other = decode_pk_from_cell_key(&cell, "db", "s", "u", "c", &DataType::Int32).unwrap_err();
    assert_eq!(other.code, "XX000");
    let name = ColumnValue::Text("n".to_string());
    let entry = index_entry_key("db", "s", "t", "i", &name, &value);
    assert!(entry.starts_with(&index_entry_prefix("db", "s", "t", "i", &name)));
    assert!(entry.starts_with(&index_table_prefix("db", "s", "t")));
    assert_eq!(
        decode_pk_from_index_entry_key(&entry, "db", "s", "t", "i", &name, &DataType::Int32)
            .unwrap(),
        value
    );
    assert_eq!(schema_key("users"), "__schema__:users");
}

#[test]
fn type_codes_are_read_back() {
    let types = vec![
        DataType::Int16,
        DataType::MySqlInt { kind: MySqlIntKind::Medium, unsigned: true },
        DataType::Numeric { precision: Some(10), scale: None },
        DataType::VarChar(Some(20)),
        DataType::Domain("email".to_string()),
        DataType::EnumOf("'a','b'".to_string()),
        DataType::Array(Box::new(DataType::Array(Box::new(DataType::Uuid)))),
    ];
    for data_type in types {
        let code: Vec<char> = data_type.to_str().chars().collect();
        let found = DataType::from_code(&code).unwrap();
        assert_eq!(found.to_str(), data_type.to_str());
        assert_eq!(format!("{:?}", found), format!("{:?}", data_type));
    }
    let wrong: Vec<char> = "??".chars().collect();
    assert!(DataType::from_code(&wrong).is_none());
}

#[test]
fn floats_are_compared_as_numbers() {
    let zero = ColumnValue::Float64(0.0f64.to_bits());
    let minus_zero = ColumnValue::Float64((-0.0f64).to_bits());
    let nan = ColumnValue::Float64(f64::NAN.to_bits());
    assert!(zero == minus_zero);
    assert!(nan != ColumnValue::Float64(f64::NAN.to_bits()));
    assert!(value_less(
        &ColumnValue::Float32((-1.0f32).to_bits()),
        &ColumnValue::Float32(0.5f32.to_bits())
    ));
    assert!(!value_less(&nan, &zero));
    assert!(!value_less(&zero, &nan));
    assert!(value_less(&ColumnValue::Null, &ColumnValue::Int16(-9)));
}

#[test]
fn cut_and_over_long_cells_are_refused() {
    let list = DataType::Array(Box::new(DataType::Text));
    let items = vec![ColumnValue::Text("ab".to_string()), ColumnValue::Null];
    let mut all = cells();
    all.push((list, ColumnValue::Array(items)));
    for (data_type, value) in all {
        if value == ColumnValue::Null {
            continue;
        }
        let bytes = encode_cell_value(&value);
        for length in 0..bytes.len() {
            let error = decode_cell_value(&data_type, &bytes[..length]).unwrap_err();
            assert_eq!(error.code, "XX000");
        }
        let mut long = bytes.clone();
        long.push(7);
        assert_eq!(decode_cell_value(&data_type, &long).unwrap_err().code, "XX000");
        assert_eq!(decode_cell_value(&data_type, &bytes).unwrap(), value);
    }
}

#[test]
fn keys_of_different_things_stay_apart() {
    let here = table_data_prefix("db", "public", "t");
    assert!(!table_data_prefix("db", "public", "tt").starts_with(&here));
    assert!(!here.starts_with(&table_data_prefix("db", "publi", "ct")));
    let text = |value: &str| ColumnValue::Text(value.to_string());
    assert_ne!(
        cell_key("db", "public", "t", "a", &text("bc")),
        cell_key("db", "public", "t", "ab", &text("c"))
    );
    assert_ne!(
        cell_key("db", "public", "t", "a", &text("b")),
        cell_key("db", "public", "t", "a", &text("bc"))
    );
    let entry = |value: &ColumnValue| index_entry_prefix("db", "public", "t", "i", value);
    assert!(!entry(&text("ab")).starts_with(&entry(&text("a"))));
    assert!(!entry(&text("")).starts_with(&entry(&ColumnValue::Null)));
    assert!(entry(&text("a")).starts_with(&entry(&text("a"))));
    let indexes = index_table_prefix("db", "public", "t");
    assert!(!cell_key("db", "public", "t", "a", &text("b")).starts_with(&indexes));
    assert!(!row_marker_key("db", "public", "t", &text("b")).starts_with(&indexes));
}

#[test]
fn key_segments_keep_order_and_differ() {
    let floats: Vec<Vec<u8>> = [-2.5f64, -0.0, 0.0, 1.0, 1.5]
        .iter()
        .map(|value| encode_primary_key_segment(&ColumnValue::Float64(value.to_bits())))
        .collect();
    assert!(floats.windows(2).all(|pair| pair[0] < pair[1]));
    let texts: Vec<Vec<u8>> = ["", "a", "ab", "b"]
        .iter()
        .map(|value| encode_primary_key_segment(&ColumnValue::Text(value.to_string())))
        .collect();
    assert!(texts.windows(2).all(|pair| pair[0] < pair[1]));
    assert_eq!(encode_primary_key_segment(&ColumnValue::Int16(-1)), vec![0x7f, 0xff]);
}

#[test]
fn types_with_different_parameters_have_different_codes() {
    let types = [
        DataType::Int32,
        DataType::VarChar(None),
        DataType::VarChar(Some(1)),
        DataType::VarChar(Some(11)),
        DataType::Numeric { precision: Some(1), scale: None },
        DataType::Numeric { precision: Some(1), scale: Some(0) },
        DataType::Numeric { precision: None, scale: Some(1) },
        DataType::Domain("d".to_string()),
        DataType::Domain("e".to_string()),
        DataType::Array(Box::new(DataType::Int32)),
        DataType::Array(Box::new(DataType::VarChar(Some(1)))),
    ];
    let codes: Vec<String> = types.iter().map(|data_type| data_type.to_str()).collect();
    for (number, code) in codes.iter().enumerate() {
        assert!(!codes[..number].contains(code));
    }
}
