//! A table of orders with rows to try things on.
use vstd::prelude::*;

use crate::catalog::model::{bootstrapped, counted, next_number, opened, table_found, table_stored};
use crate::catalog::types::{
    CatalogStore, TableCatalog, TableEntry, DEFAULT_DATABASE_NAME, DEFAULT_SCHEMA_NAME,
};
use crate::error::{not_internal, report, user_error, Report, UserError};
use crate::mem_store::{Contents, KvStore};
use crate::mode::GatewayMode;
use crate::row::{RowMap, RowModel};
use crate::schema::{seen, ColumnModel, ColumnSchema, TableModel, TableSchema};
use crate::types::{type_code, ColumnValue, DataType, Datum};

verus! {

/// How many rows the table of orders gets.
pub const TARGET_ROWS: i64 = 10_000_000;

/// How many rows are written together where nothing else is said.
pub const DEFAULT_BATCH_ROWS: i64 = 100_000;

/// The last row of the batch that starts with a row.
pub fn batch_end(next_id: i64, batch_rows: i64) -> (end_id: i64)
    requires
        1 <= next_id <= TARGET_ROWS,
        1 <= batch_rows,
    ensures
        end_id == (if next_id + batch_rows - 1 < TARGET_ROWS {
            next_id + batch_rows - 1
        } else {
            TARGET_ROWS as int
        }),
{
    if batch_rows - 1 < TARGET_ROWS - next_id {
        next_id + (batch_rows - 1)
    } else {
        TARGET_ROWS
    }
}

/// The values of an order.
pub open spec fn order(id: i64) -> RowModel {
    Map::<Seq<char>, Datum>::empty().insert("id"@, Datum::Int64(id)).insert(
        "customer_id"@,
        Datum::Int64(((id - 1) % 100_000 + 1) as i64),
    ).insert("product_id"@, Datum::Int64(((id - 1) % 1_000 + 1) as i64)).insert(
        "quantity"@,
        Datum::Int32(((id - 1) % 5 + 1) as i32),
    ).insert("amount_cents"@, Datum::Int64((1_000 + (id - 1) % 50_000) as i64)).insert(
        "status"@,
        Datum::Text("paid"@),
    ).insert("created_at"@, Datum::Timestamp("2026-06-13 00:00:00"@))
}

/// The values of an order.
pub fn order_row(id: i64) -> (row: RowMap)
    requires
        1 <= id,
    ensures
        row@ == order(id),
{
    let place: i64 = id - 1;
    let mut row = RowMap::new();
    row.insert("id".to_string(), ColumnValue::Int64(id));
    row.insert("customer_id".to_string(), ColumnValue::Int64(place % 100_000 + 1));
    row.insert("product_id".to_string(), ColumnValue::Int64(place % 1_000 + 1));
    row.insert("quantity".to_string(), ColumnValue::Int32((place % 5 + 1) as i32));
    row.insert("amount_cents".to_string(), ColumnValue::Int64(1_000 + place % 50_000));
    row.insert("status".to_string(), ColumnValue::Text("paid".to_string()));
    row.insert(
        "created_at".to_string(),
        ColumnValue::Timestamp("2026-06-13 00:00:00".to_string()),
    );
    row
}

/// A column of the table of orders.
pub open spec fn plain_column(
    column_id: u32,
    name: Seq<char>,
    data_type: DataType,
    primary_key: bool,
    nullable: bool,
) -> ColumnModel {
    ColumnModel {
        column_id,
        name,
        data_type: type_code(data_type),
        primary_key,
        nullable,
        default: None,
        on_update: None,
        character_set: None,
        collation: None,
    }
}

fn column(column_id: u32, name: &str, data_type: DataType, primary_key: bool, nullable: bool) -> (
    column: ColumnSchema)
    ensures
        column@ == plain_column(column_id, name@, data_type, primary_key, nullable),
{
    ColumnSchema {
        column_id,
        name: name.to_string(),
        data_type,
        primary_key,
        nullable,
        default: None,
        on_update: None,
        character_set: None,
        collation: None,
    }
}

/// The table of orders.
pub open spec fn orders(table_id: u32) -> TableModel {
    TableModel {
        table_name: "orders"@,
        table_id,
        schema_version: 1,
        table_epoch: 1,
        primary_key: "id"@,
        check_constraints: seq![],
        unique_constraints: seq![],
        foreign_keys: seq![],
        columns: seq![
            plain_column(1, "id"@, DataType::Int64, true, false),
            plain_column(2, "customer_id"@, DataType::Int64, false, true),
            plain_column(3, "product_id"@, DataType::Int64, false, true),
            plain_column(4, "quantity"@, DataType::Int32, false, true),
            plain_column(5, "amount_cents"@, DataType::Int64, false, true),
            plain_column(6, "status"@, DataType::Text, false, true),
            plain_column(7, "created_at"@, DataType::Timestamp, false, true),
        ],
    }
}

/// The table of orders.
pub fn orders_schema(table_id: u32) -> (schema: TableSchema)
    ensures
        schema@ == orders(table_id),
{
    let mut columns: Vec<ColumnSchema> = Vec::new();
    columns.push(column(1, "id", DataType::Int64, true, false));
    columns.push(column(2, "customer_id", DataType::Int64, false, true));
    columns.push(column(3, "product_id", DataType::Int64, false, true));
    columns.push(column(4, "quantity", DataType::Int32, false, true));
    columns.push(column(5, "amount_cents", DataType::Int64, false, true));
    columns.push(column(6, "status", DataType::Text, false, true));
    columns.push(column(7, "created_at", DataType::Timestamp, false, true));
    let schema = TableSchema {
        table_name: "orders".to_string(),
        table_id,
        schema_version: 1,
        table_epoch: 1,
        primary_key: "id".to_string(),
        check_constraints: Vec::new(),
        unique_constraints: Vec::new(),
        foreign_keys: Vec::new(),
        columns,
    };
    assert(schema@.columns =~= orders(table_id).columns);
    assert(schema@.check_constraints =~= orders(table_id).check_constraints);
    assert(schema@.unique_constraints =~= orders(table_id).unique_constraints);
    assert(schema@.foreign_keys =~= orders(table_id).foreign_keys);
    schema
}

/// An order has a value for just the columns of its table, and its key is its number.
pub proof fn law_orders_fit_their_table(id: i64, table_id: u32)
    ensures
        order(id).dom().contains(orders(table_id).primary_key),
        order(id)[orders(table_id).primary_key] == Datum::Int64(id),
        forall|i: int|
            0 <= i < orders(table_id).columns.len() ==> order(id).dom().contains(
                (#[trigger] orders(table_id).columns[i]).name,
            ),
{
    reveal_strlit("id");
    reveal_strlit("customer_id");
    reveal_strlit("product_id");
    reveal_strlit("quantity");
    reveal_strlit("amount_cents");
    reveal_strlit("status");
    reveal_strlit("created_at");
    assert("id"@.len() == 2);
    assert("customer_id"@.len() == 11);
    assert("product_id"@.len() == 10);
    assert("quantity"@.len() == 8);
    assert("amount_cents"@.len() == 12);
    assert("status"@.len() == 6);
    assert("created_at"@.len() == 10);
}

/// The table of orders, which is made where it is not there.
pub open spec fn orders_ensured(contents: Contents, mode: GatewayMode) -> (
    Result<TableEntry, Report>,
    Contents,
) {
    let begun = opened(contents, mode);
    match begun.0 {
        Err(e) => (Err(e), begun.1),
        Ok(_) => {
            let start = bootstrapped(begun.1);
            match table_found(start, DEFAULT_DATABASE_NAME@, DEFAULT_SCHEMA_NAME@, "orders"@) {
                Err(e) => (Err(e), start),
                Ok(Some(table)) => (Ok(table), start),
                Ok(None) => {
                    let table_id = next_number(bootstrapped(start), "__catalog__/next_table_id"@);
                    let numbered = counted(bootstrapped(start), "__catalog__/next_table_id"@);
                    let stored = table_stored(
                        numbered,
                        DEFAULT_DATABASE_NAME@,
                        DEFAULT_SCHEMA_NAME@,
                        orders(table_id),
                    );
                    match stored.0 {
                        Err(e) => (Err(e), stored.1),
                        Ok(_) => {
                            let done = bootstrapped(stored.1);
                            (
                                match table_found(
                                    done,
                                    DEFAULT_DATABASE_NAME@,
                                    DEFAULT_SCHEMA_NAME@,
                                    "orders"@,
                                ) {
                                    Err(e) => Err(e),
                                    Ok(Some(table)) => Ok(table),
                                    Ok(None) => Err(
                                        report("XX000"@, "orders table was not persisted"@),
                                    ),
                                },
                                done,
                            )
                        },
                    }
                },
            }
        },
    }
}

/// The table of orders, which is made where it is not there.
pub fn ensure_orders_table<S: KvStore>(catalog: &mut CatalogStore<S>, mode: GatewayMode) -> (result:
    Result<TableCatalog, UserError>)
    ensures
        final(catalog).reliable() == old(catalog).reliable(),
        not_internal(result) || old(catalog).reliable() ==> seen(result) == orders_ensured(
            old(catalog).contents(),
            mode,
        ).0 && final(catalog).contents() == orders_ensured(old(catalog).contents(), mode).1,
{
    match catalog.ensure_bootstrap_for_mode(mode) {
        Err(e) => {
            return Err(e);
        },
        Ok(_) => {},
    }
    match catalog.load_table(DEFAULT_DATABASE_NAME, DEFAULT_SCHEMA_NAME, "orders") {
        Err(e) => {
            return Err(e);
        },
        Ok(Some(table)) => {
            return Ok(table);
        },
        Ok(None) => {},
    }
    let table_id: u32 = match catalog.allocate_table_id() {
        Err(e) => {
            return Err(e);
        },
        Ok(table_id) => table_id,
    };
    let schema = orders_schema(table_id);
    match catalog.store_table(DEFAULT_DATABASE_NAME, DEFAULT_SCHEMA_NAME, &schema) {
        Err(e) => {
            return Err(e);
        },
        Ok(_) => {},
    }
    match catalog.load_table(DEFAULT_DATABASE_NAME, DEFAULT_SCHEMA_NAME, "orders") {
        Err(e) => Err(e),
        Ok(Some(table)) => Ok(table),
        Ok(None) => Err(user_error("XX000", "orders table was not persisted")),
    }
}

} // verus!
