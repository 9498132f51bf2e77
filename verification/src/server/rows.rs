//! Rules on rows: what an index holds of a row, what constraints ask of it, which rows a
//! statement changes and what it makes of them.
use vstd::prelude::*;

use crate::catalog::codec::{resolve_table_reference, seen_names, table_reference};
use crate::catalog::types::{IndexCatalog, IndexModel};
use crate::error::{
    report, unsupported, unsupported_report, user_error, user_error_text, Report, UserError,
};
use crate::lists::kept_where;
use crate::order::{datum_less, law_values_are_ordered, value_less, without_nan};
use crate::row::{field, RowMap, RowModel};
use crate::schema::{
    has_column, option_view, same_names, views, CheckModel, ColumnModel, Duplicate,
    ForeignKeyConstraintSchema, ForeignKeyModel, TableModel, TableSchema, UniqueConstraintSchema,
};
use crate::server::plan::{AssignmentModel, UpdateAssignment};
use crate::sorting::{in_order, law_sorted, order_of, sort_items, sorted, strict_on, Ordered};
use crate::text::{chars_of, find_mark, lower, mark_at, same_but_for_case, same_text, three_texts};
use crate::types::{alike, all_alike, data, data_eq, datum_eq, ColumnValue, Datum};

verus! {

/// A row with its key.
#[derive(Debug)]
pub struct RowEntry {
    pub key: ColumnValue,
    pub row: RowMap,
}

/// What a [`RowEntry`] says.
pub struct EntryModel {
    pub key: Datum,
    pub row: RowModel,
}

impl View for RowEntry {
    type V = EntryModel;

    open spec fn view(&self) -> EntryModel {
        EntryModel { key: self.key@, row: self.row@ }
    }
}

impl Duplicate for RowEntry {
    fn duplicate(&self) -> (copy: Self) {
        RowEntry { key: self.key.copied(), row: self.row.duplicate() }
    }
}

/// The values of a row for some columns.
pub open spec fn fields(row: RowModel, columns: Seq<Seq<char>>) -> Seq<Datum> {
    columns.map_values(|name: Seq<char>| field(row, name))
}

/// The values of a row for some columns; null where it has none.
pub fn foreign_key_values(row: &RowMap, columns: &Vec<String>) -> (values: Vec<ColumnValue>)
    ensures
        views(values@) == fields(row@, views(columns@)),
{
    let mut values: Vec<ColumnValue> = Vec::new();
    let mut i: usize = 0;
    while i < columns.len()
        invariant
            i <= columns@.len(),
            values@.len() == i,
            forall|k: int|
                0 <= k < i ==> (#[trigger] values@[k])@ == field(row@, views(columns@)[k]),
        decreases columns@.len() - i,
    {
        assert(views(columns@)[i as int] == columns@[i as int]@);
        values.push(row.value_or_null(columns[i].as_str()));
        i += 1;
    }
    assert(views(values@) =~= fields(row@, views(columns@)));
    values
}

/// What an index on some columns holds of a row: the value of the one column, or the list of
/// the values.
pub open spec fn indexed(row: RowModel, columns: Seq<Seq<char>>) -> Datum {
    if columns.len() == 1 {
        field(row, columns[0])
    } else {
        Datum::Array(fields(row, columns))
    }
}

/// What an index on some columns holds of a row.
pub fn indexed_value_for_columns(row: &RowMap, column_names: &Vec<String>) -> (value: ColumnValue)
    ensures
        value@ == indexed(row@, views(column_names@)),
{
    if column_names.len() == 1 {
        assert(views(column_names@)[0] == column_names@[0]@);
        return row.value_or_null(column_names[0].as_str());
    }
    let values = foreign_key_values(row, column_names);
    let value = ColumnValue::Array(values);
    assert(value@->Array_0 =~= views(values@));
    value
}

/// What an index holds of a row.
pub fn indexed_value(row: &RowMap, index: &IndexCatalog) -> (value: ColumnValue)
    ensures
        value@ == indexed(row@, index@.column_names),
{
    indexed_value_for_columns(row, &index.column_names)
}

/// The value that an index on some columns has for the values of the columns.
pub open spec fn value_for(values: Seq<Datum>) -> Datum {
    if values.len() == 1 {
        values[0]
    } else {
        Datum::Array(values)
    }
}

/// The first index on just some columns, in their order.
pub open spec fn index_on(indexes: Seq<IndexModel>, columns: Seq<Seq<char>>) -> Option<IndexModel>
    decreases indexes.len(),
{
    if indexes.len() == 0 {
        None
    } else if indexes[0].column_names == columns {
        Some(indexes[0])
    } else {
        index_on(indexes.skip(1), columns)
    }
}

/// Where rows with some values in some columns can be looked up: the name of an index, and the
/// value in it.
pub fn index_for_columns(
    indexes: &Vec<IndexCatalog>,
    columns: &Vec<String>,
    values: &Vec<ColumnValue>,
) -> (found: Option<(String, ColumnValue)>)
    ensures
        match found {
            Some((name, value)) => index_on(views(indexes@), views(columns@)) matches Some(index)
                && name@ == index.index_name && value@ == value_for(views(values@)),
            None => index_on(views(indexes@), views(columns@)) is None,
        },
{
    let ghost all = views(indexes@);
    let mut i: usize = 0;
    assert(all.skip(0) =~= all);
    while i < indexes.len()
        invariant
            i <= indexes@.len(),
            all == views(indexes@),
            index_on(all, views(columns@)) == index_on(all.skip(i as int), views(columns@)),
        decreases indexes@.len() - i,
    {
        assert(all.skip(i as int)[0] == indexes@[i as int]@);
        assert(all.skip(i as int).skip(1) =~= all.skip(i + 1));
        if same_names(&indexes[i].column_names, columns) {
            let value = if values.len() == 1 {
                assert(views(values@)[0] == values@[0]@);
                values[0].copied()
            } else {
                let mut items: Vec<ColumnValue> = Vec::new();
                let mut k: usize = 0;
                while k < values.len()
                    invariant
                        k <= values@.len(),
                        items@.len() == k,
                        forall|m: int| 0 <= m < k ==> (#[trigger] items@[m])@ == values@[m]@,
                    decreases values@.len() - k,
                {
                    items.push(values[k].copied());
                    k += 1;
                }
                let list = ColumnValue::Array(items);
                assert(list@->Array_0 =~= views(values@));
                list
            };
            return Some((indexes[i].index_name.clone(), value));
        }
        i += 1;
    }
    None
}

/// Whether a value of an index is null or holds a null.
pub open spec fn has_null(value: Datum) -> bool {
    match value {
        Datum::Null => true,
        Datum::Array(items) => items.contains(Datum::Null),
        _ => false,
    }
}

/// Whether one of some values is null.
pub fn any_null(values: &Vec<ColumnValue>) -> (answer: bool)
    ensures
        answer == views(values@).contains(Datum::Null),
{
    let mut i: usize = 0;
    while i < values.len()
        invariant
            i <= values@.len(),
            forall|k: int| 0 <= k < i ==> #[trigger] views(values@)[k] != Datum::Null,
        decreases values@.len() - i,
    {
        assert(views(values@)[i as int] == values@[i as int]@);
        if values[i].is_null() {
            return true;
        }
        i += 1;
    }
    false
}

/// Whether a value of an index is null or holds a null.
pub fn index_value_has_null(value: &ColumnValue) -> (answer: bool)
    ensures
        answer == has_null(value@),
{
    match value {
        ColumnValue::Null => true,
        ColumnValue::Array(values) => {
            assert(value@->Array_0 =~= views(values@));
            any_null(values)
        },
        _ => false,
    }
}

/// The first column that may not be null and is.
pub open spec fn missing_value(columns: Seq<ColumnModel>, row: RowModel) -> Option<Seq<char>>
    decreases columns.len(),
{
    if columns.len() == 0 {
        None
    } else if !columns[0].nullable && field(row, columns[0].name) == Datum::Null {
        Some(columns[0].name)
    } else {
        missing_value(columns.skip(1), row)
    }
}

/// What became of a check constraint on a row.
pub enum CheckVerdict {
    Holds,
    Fails,
    Malformed(UserError),
}

/// What a [`CheckVerdict`] says.
pub enum VerdictModel {
    Holds,
    Fails,
    Malformed(Report),
}

impl View for CheckVerdict {
    type V = VerdictModel;

    open spec fn view(&self) -> VerdictModel {
        match *self {
            CheckVerdict::Holds => VerdictModel::Holds,
            CheckVerdict::Fails => VerdictModel::Fails,
            CheckVerdict::Malformed(error) => VerdictModel::Malformed(error@),
        }
    }
}

impl Duplicate for CheckVerdict {
    fn duplicate(&self) -> (copy: Self) {
        match self {
            CheckVerdict::Holds => CheckVerdict::Holds,
            CheckVerdict::Fails => CheckVerdict::Fails,
            CheckVerdict::Malformed(error) => CheckVerdict::Malformed(error.duplicate()),
        }
    }
}

/// The first verdict that is not that a constraint holds.
pub open spec fn first_other(verdicts: Seq<VerdictModel>) -> VerdictModel
    decreases verdicts.len(),
{
    if verdicts.len() == 0 {
        VerdictModel::Holds
    } else if verdicts[0] is Holds {
        first_other(verdicts.skip(1))
    } else {
        verdicts[0]
    }
}

/// What a check constraint came to over all rows of a table, by what it came to on each.
pub fn check_over_rows(verdicts: &Vec<CheckVerdict>) -> (verdict: CheckVerdict)
    ensures
        verdict@ == first_other(views(verdicts@)),
{
    let ghost all = views(verdicts@);
    let mut i: usize = 0;
    assert(all.skip(0) =~= all);
    while i < verdicts.len()
        invariant
            i <= verdicts@.len(),
            all == views(verdicts@),
            first_other(all) == first_other(all.skip(i as int)),
        decreases verdicts@.len() - i,
    {
        assert(all.skip(i as int)[0] == verdicts@[i as int]@);
        assert(all.skip(i as int).skip(1) =~= all.skip(i + 1));
        match &verdicts[i] {
            CheckVerdict::Holds => {},
            other => {
                return other.duplicate();
            },
        }
        i += 1;
    }
    CheckVerdict::Holds
}

/// The first error that a constraint is malformed with.
pub open spec fn first_malformed(verdicts: Seq<VerdictModel>) -> Option<Report>
    decreases verdicts.len(),
{
    if verdicts.len() == 0 {
        None
    } else if let VerdictModel::Malformed(error) = verdicts[0] {
        Some(error)
    } else {
        first_malformed(verdicts.skip(1))
    }
}

/// What a check constraint that a table is to get comes to: one that is malformed is so without
/// any row.
pub open spec fn new_check(alone: Seq<VerdictModel>, over_rows: Seq<VerdictModel>) -> VerdictModel {
    match first_malformed(alone) {
        Some(error) => VerdictModel::Malformed(error),
        None => first_other(over_rows),
    }
}

/// What a check constraint that a table is to get comes to: `alone` says what it came to on a row
/// without values, of which only that it is malformed counts, `over_rows` what on each row.
pub fn new_check_verdict(alone: &Vec<CheckVerdict>, over_rows: &Vec<CheckVerdict>) -> (verdict:
    CheckVerdict)
    ensures
        verdict@ == new_check(views(alone@), views(over_rows@)),
{
    let ghost all = views(alone@);
    let mut i: usize = 0;
    assert(all.skip(0) =~= all);
    while i < alone.len()
        invariant
            i <= alone@.len(),
            all == views(alone@),
            first_malformed(all) == first_malformed(all.skip(i as int)),
        decreases alone@.len() - i,
    {
        assert(all.skip(i as int)[0] == alone@[i as int]@);
        assert(all.skip(i as int).skip(1) =~= all.skip(i + 1));
        if let CheckVerdict::Malformed(error) = &alone[i] {
            return CheckVerdict::Malformed(error.duplicate());
        }
        i += 1;
    }
    check_over_rows(over_rows)
}

/// The error of the first check constraint that does not hold.
pub open spec fn check_error(checks: Seq<CheckModel>, verdicts: Seq<VerdictModel>) -> Option<Report>
    decreases checks.len(),
{
    if checks.len() == 0 {
        None
    } else {
        match verdicts[0] {
            VerdictModel::Malformed(error) => Some(error),
            VerdictModel::Fails => Some(
                report("23514"@, "check constraint '"@ + checks[0].name + "' is violated"@),
            ),
            VerdictModel::Holds => check_error(checks.skip(1), verdicts.skip(1)),
        }
    }
}

/// The error of a row that breaks a constraint of its table: a null where none may stand, else
/// a check that does not hold.
pub open spec fn constraint_error(
    table: TableModel,
    row: RowModel,
    verdicts: Seq<VerdictModel>,
) -> Option<Report> {
    match missing_value(table.columns, row) {
        Some(name) => Some(
            report(
                "23502"@,
                "null value in column '"@ + name + "' violates not-null constraint"@,
            ),
        ),
        None => check_error(table.check_constraints, verdicts),
    }
}

/// Tests a row against the constraints of its table; `verdicts` says of each check constraint
/// what it came to.
pub fn validate_row_constraints(
    schema: &TableSchema,
    row: &RowMap,
    verdicts: &Vec<CheckVerdict>,
) -> (result: Result<(), UserError>)
    requires
        verdicts@.len() == schema.check_constraints@.len(),
    ensures
        match result {
            Ok(_) => constraint_error(schema@, row@, views(verdicts@)) is None,
            Err(error) => constraint_error(schema@, row@, views(verdicts@)) == Some(error@),
        },
{
    let ghost columns = schema@.columns;
    let mut i: usize = 0;
    assert(columns.skip(0) =~= columns);
    while i < schema.columns.len()
        invariant
            i <= schema.columns@.len(),
            columns == views(schema.columns@),
            missing_value(columns, row@) == missing_value(columns.skip(i as int), row@),
        decreases schema.columns@.len() - i,
    {
        let column = &schema.columns[i];
        assert(columns.skip(i as int)[0] == column@);
        assert(columns.skip(i as int).skip(1) =~= columns.skip(i + 1));
        if !column.nullable && row.value_or_null(column.name.as_str()).is_null() {
            return Err(
                user_error_text(
                    "23502",
                    three_texts(
                        "null value in column '",
                        column.name.as_str(),
                        "' violates not-null constraint",
                    ),
                ),
            );
        }
        i += 1;
    }
    let ghost checks = schema@.check_constraints;
    let ghost said = views(verdicts@);
    let mut k: usize = 0;
    assert(checks.skip(0) =~= checks);
    assert(said.skip(0) =~= said);
    while k < schema.check_constraints.len()
        invariant
            missing_value(schema@.columns, row@) is None,
            k <= schema.check_constraints@.len(),
            verdicts@.len() == schema.check_constraints@.len(),
            checks == views(schema.check_constraints@),
            said == views(verdicts@),
            check_error(checks, said) == check_error(checks.skip(k as int), said.skip(k as int)),
            checks == schema@.check_constraints,
        decreases schema.check_constraints@.len() - k,
    {
        assert(said.skip(k as int)[0] == verdicts@[k as int]@);
        assert(checks.skip(k as int)[0] == schema.check_constraints@[k as int]@);
        assert(checks.skip(k as int).skip(1) =~= checks.skip(k + 1));
        assert(said.skip(k as int).skip(1) =~= said.skip(k + 1));
        match &verdicts[k] {
            CheckVerdict::Malformed(error) => {
                return Err(user_error(error.code.as_str(), error.message.as_str()));
            },
            CheckVerdict::Fails => {
                return Err(
                    user_error_text(
                        "23514",
                        three_texts(
                            "check constraint '",
                            schema.check_constraints[k].name.as_str(),
                            "' is violated",
                        ),
                    ),
                );
            },
            CheckVerdict::Holds => {},
        }
        k += 1;
    }
    Ok(())
}

/// The schema and name of a table that a foreign key names: with its own schema, or in the
/// schema of the table that has the key.
pub open spec fn foreign_reference(current_schema: Seq<char>, table_name: Seq<char>) -> Result<
    (Seq<char>, Seq<char>),
    Report,
> {
    if mark_at(table_name, '.') is Some {
        table_reference(table_name)
    } else {
        Ok((current_schema, table_name))
    }
}

/// The schema and name of a table that a foreign key names.
pub fn resolve_foreign_table_reference(current_schema: &str, table_name: &str) -> (result: Result<
    (String, String),
    UserError,
>)
    ensures
        seen_names(result) == foreign_reference(current_schema@, table_name@),
{
    let chars = chars_of(table_name);
    if find_mark(chars.as_slice(), '.').is_some() {
        resolve_table_reference(table_name)
    } else {
        Ok((current_schema.to_string(), table_name.to_string()))
    }
}

/// Whether a row has the given values in the given columns, as far as there are both.
pub open spec fn matches_columns(
    row: RowModel,
    columns: Seq<Seq<char>>,
    values: Seq<Datum>,
) -> bool {
    forall|i: int|
        0 <= i < columns.len() && i < values.len() ==> row.dom().contains(#[trigger] columns[i])
            && datum_eq(row[columns[i]], values[i])
}

/// Whether a row has the given values in the given columns.
pub fn row_matches_columns(
    row: &RowMap,
    columns: &Vec<String>,
    values: &Vec<ColumnValue>,
) -> (answer: bool)
    ensures
        answer == matches_columns(row@, views(columns@), views(values@)),
{
    let mut i: usize = 0;
    while i < columns.len() && i < values.len()
        invariant
            i <= columns@.len(),
            i <= values@.len(),
            forall|k: int|
                0 <= k < i ==> row@.dom().contains(#[trigger] views(columns@)[k]) && datum_eq(
                    row@[views(columns@)[k]],
                    views(values@)[k],
                ),
        decreases columns@.len() - i,
    {
        assert(views(columns@)[i as int] == columns@[i as int]@);
        assert(views(values@)[i as int] == values@[i as int]@);
        match row.get(columns[i].as_str()) {
            Some(found) => {
                if !found.equals(&values[i]) {
                    return false;
                }
            },
            None => {
                return false;
            },
        }
        i += 1;
    }
    true
}

/// Whether two rows of values are equal item by item.
pub fn same_values(a: &Vec<ColumnValue>, b: &Vec<ColumnValue>) -> (same: bool)
    ensures
        same == data_eq(views(a@), views(b@)),
{
    if a.len() != b.len() {
        return false;
    }
    let mut i: usize = 0;
    while i < a.len()
        invariant
            i <= a@.len(),
            a@.len() == b@.len(),
            forall|k: int|
                0 <= k < i ==> datum_eq(#[trigger] views(a@)[k], views(b@)[k]),
        decreases a@.len() - i,
    {
        assert(views(a@)[i as int] == a@[i as int]@);
        assert(views(b@)[i as int] == b@[i as int]@);
        if !a[i].equals(&b[i]) {
            assert(!datum_eq(views(a@)[i as int], views(b@)[i as int]));
            return false;
        }
        i += 1;
    }
    true
}

/// What a foreign key asks of a row of its table: nothing where a value is null, else a row
/// with the values in the table that it names.
pub open spec fn foreign_demand(schema_name: Seq<char>, key: ForeignKeyModel, row: RowModel) -> Result<
    Option<(Seq<char>, Seq<char>, Seq<Datum>)>,
    Report,
> {
    if key.columns.len() != key.referred_columns.len() || key.columns.len() == 0 {
        Err(report("42830"@, "foreign key constraint '"@ + key.name + "' is malformed"@))
    } else if fields(row, key.columns).contains(Datum::Null) {
        Ok(None)
    } else {
        match foreign_reference(schema_name, key.foreign_table) {
            Err(error) => Err(error),
            Ok((schema, table)) => Ok(Some((schema, table, fields(row, key.columns)))),
        }
    }
}

/// A row that another table has to have: the table, and values for the referred columns.
#[derive(Debug)]
pub struct ForeignDemand {
    pub schema_name: String,
    pub table_name: String,
    pub values: Vec<ColumnValue>,
}

impl View for ForeignDemand {
    type V = (Seq<char>, Seq<char>, Seq<Datum>);

    open spec fn view(&self) -> (Seq<char>, Seq<char>, Seq<Datum>) {
        (self.schema_name@, self.table_name@, views(self.values@))
    }
}

/// What a foreign key asks of a row of its table.
pub fn foreign_key_demand(
    schema_name: &str,
    key: &ForeignKeyConstraintSchema,
    row: &RowMap,
) -> (result: Result<Option<ForeignDemand>, UserError>)
    ensures
        crate::schema::seen_option(result) == foreign_demand(schema_name@, key@, row@),
{
    if key.columns.len() != key.referred_columns.len() || key.columns.len() == 0 {
        return Err(
            user_error_text(
                "42830",
                three_texts("foreign key constraint '", key.name.as_str(), "' is malformed"),
            ),
        );
    }
    let values = foreign_key_values(row, &key.columns);
    if any_null(&values) {
        return Ok(None);
    }
    match resolve_foreign_table_reference(schema_name, key.foreign_table.as_str()) {
        Err(error) => Err(error),
        Ok((schema_name, table_name)) => Ok(
            Some(ForeignDemand { schema_name, table_name, values }),
        ),
    }
}

/// Whether every name is that of a column.
pub open spec fn all_columns(columns: Seq<ColumnModel>, names: Seq<Seq<char>>) -> bool {
    forall|i: int| 0 <= i < names.len() ==> has_column(columns, #[trigger] names[i])
}

/// Whether every name is that of a column.
pub fn has_all_columns(schema: &TableSchema, names: &Vec<String>) -> (answer: bool)
    ensures
        answer == all_columns(schema@.columns, views(names@)),
{
    let mut i: usize = 0;
    while i < names.len()
        invariant
            i <= names@.len(),
            forall|k: int|
                0 <= k < i ==> has_column(schema@.columns, #[trigger] views(names@)[k]),
        decreases names@.len() - i,
    {
        assert(views(names@)[i as int] == names@[i as int]@);
        if schema.find_column(names[i].as_str()).is_none() {
            return false;
        }
        i += 1;
    }
    true
}

/// The error of a foreign key whose table is not there or lacks a column.
pub open spec fn foreign_target_error(key: ForeignKeyModel, table_name: Seq<char>, foreign: Option<TableModel>) -> Option<Report> {
    match foreign {
        None => Some(
            report("42P01"@, "referenced table '"@ + key.foreign_table + "' does not exist"@),
        ),
        Some(table) => if all_columns(table.columns, key.referred_columns) {
            None
        } else {
            Some(
                report(
                    "42830"@,
                    "there is no unique constraint matching given keys for referenced table '"@
                        + table_name + "'"@,
                ),
            )
        },
    }
}

/// How the row that a foreign key asks for is looked for: by its key, where that is what the
/// foreign key refers to, else among all rows.
pub open spec fn by_primary_key(key: ForeignKeyModel, foreign: TableModel) -> bool {
    key.referred_columns.len() == 1 && key.referred_columns[0] == foreign.primary_key
}

/// Tests the table that a foreign key refers to; where it will do, says whether the row is
/// looked for by its key.
pub fn foreign_key_target(
    key: &ForeignKeyConstraintSchema,
    table_name: &str,
    foreign: &Option<TableSchema>,
) -> (result: Result<bool, UserError>)
    ensures
        match result {
            Ok(by_key) => foreign_target_error(key@, table_name@, option_view(*foreign)) is None
                && foreign is Some && by_key == by_primary_key(key@, foreign->0@),
            Err(error) => foreign_target_error(key@, table_name@, option_view(*foreign)) == Some(
                error@,
            ),
        },
{
    match foreign {
        None => Err(
            user_error_text(
                "42P01",
                three_texts(
                    "referenced table '",
                    key.foreign_table.as_str(),
                    "' does not exist",
                ),
            ),
        ),
        Some(table) => {
            if !has_all_columns(table, &key.referred_columns) {
                return Err(
                    user_error_text(
                        "42830",
                        three_texts(
                            "there is no unique constraint matching given keys for referenced table '",
                            table_name,
                            "'",
                        ),
                    ),
                );
            }
            if key.referred_columns.len() == 1 {
                assert(key@.referred_columns[0] == key.referred_columns@[0]@);
                return Ok(key.referred_columns[0] == table.primary_key);
            }
            Ok(false)
        },
    }
}

/// The rows among which a row with the given values is.
pub open spec fn any_matches(
    rows: Seq<RowModel>,
    columns: Seq<Seq<char>>,
    values: Seq<Datum>,
) -> bool {
    exists|i: int|
        0 <= i < rows.len() && matches_columns(#[trigger] rows[i], columns, values)
}

/// Whether a row with the given values is among some rows.
pub fn any_row_matches(rows: &Vec<RowMap>, columns: &Vec<String>, values: &Vec<ColumnValue>) -> (answer:
    bool)
    ensures
        answer == any_matches(views(rows@), views(columns@), views(values@)),
{
    let mut i: usize = 0;
    while i < rows.len()
        invariant
            i <= rows@.len(),
            forall|k: int|
                0 <= k < i ==> !matches_columns(
                    #[trigger] views(rows@)[k],
                    views(columns@),
                    views(values@),
                ),
        decreases rows@.len() - i,
    {
        assert(views(rows@)[i as int] == rows@[i as int]@);
        if row_matches_columns(&rows[i], columns, values) {
            return true;
        }
        i += 1;
    }
    false
}

/// The error of a row whose foreign key finds nothing.
pub fn foreign_key_verdict(schema: &TableSchema, key: &ForeignKeyConstraintSchema, found: bool) -> (result:
    Result<(), UserError>)
    ensures
        result is Ok <==> found,
        result matches Err(error) ==> error@ == report(
            "23503"@,
            "insert or update on table '"@ + schema@.table_name
                + "' violates foreign key constraint '"@ + key@.name + "'"@,
        ),
{
    if found {
        return Ok(());
    }
    let start = three_texts(
        "insert or update on table '",
        schema.table_name.as_str(),
        "' violates foreign key constraint '",
    );
    Err(user_error_text("23503", three_texts(start.as_str(), key.name.as_str(), "'")))
}

/// Whether a foreign key of another table refers to a row: the values that its table may then
/// not have in the columns of the key.
pub open spec fn referred_values(
    child_schema: Seq<char>,
    key: ForeignKeyModel,
    schema_name: Seq<char>,
    table_name: Seq<char>,
    row: RowModel,
) -> Result<Option<Seq<Datum>>, Report> {
    if key.columns.len() != key.referred_columns.len() || key.columns.len() == 0 {
        Ok(None)
    } else {
        match foreign_reference(child_schema, key.foreign_table) {
            Err(error) => Err(error),
            Ok((schema, table)) => if schema != schema_name || table != table_name || fields(
                row,
                key.referred_columns,
            ).contains(Datum::Null) {
                Ok(None)
            } else {
                Ok(Some(fields(row, key.referred_columns)))
            },
        }
    }
}

/// The values that rows of another table may not have in the columns of its foreign key once a
/// row is gone; nothing where the key does not refer to the row.
pub fn foreign_key_reference(
    child_schema: &str,
    key: &ForeignKeyConstraintSchema,
    schema_name: &str,
    schema: &TableSchema,
    row: &RowMap,
) -> (result: Result<Option<Vec<ColumnValue>>, UserError>)
    ensures
        match result {
            Ok(Some(values)) => referred_values(
                child_schema@,
                key@,
                schema_name@,
                schema@.table_name,
                row@,
            ) == Ok::<Option<Seq<Datum>>, Report>(Some(views(values@))),
            Ok(None) => referred_values(
                child_schema@,
                key@,
                schema_name@,
                schema@.table_name,
                row@,
            ) == Ok::<Option<Seq<Datum>>, Report>(None),
            Err(error) => referred_values(
                child_schema@,
                key@,
                schema_name@,
                schema@.table_name,
                row@,
            ) == Err::<Option<Seq<Datum>>, Report>(error@),
        },
{
    if key.columns.len() != key.referred_columns.len() || key.columns.len() == 0 {
        return Ok(None);
    }
    match resolve_foreign_table_reference(child_schema, key.foreign_table.as_str()) {
        Err(error) => Err(error),
        Ok((foreign_schema, foreign_table)) => {
            if !same_text(foreign_schema.as_str(), schema_name) || foreign_table
                != schema.table_name {
                return Ok(None);
            }
            let values = foreign_key_values(row, &key.referred_columns);
            if any_null(&values) {
                return Ok(None);
            }
            Ok(Some(values))
        },
    }
}

/// Whether a row of another table has the values of a row that is to go.
pub open spec fn is_referenced(
    children: Seq<RowModel>,
    columns: Seq<Seq<char>>,
    values: Seq<Datum>,
) -> bool {
    exists|i: int|
        0 <= i < children.len() && data_eq(fields(#[trigger] children[i], columns), values)
}

/// Refuses to let go of a row that rows of another table refer to.
pub fn reference_verdict(
    schema: &TableSchema,
    key: &ForeignKeyConstraintSchema,
    children: &Vec<RowMap>,
    values: &Vec<ColumnValue>,
) -> (result: Result<(), UserError>)
    ensures
        result is Ok <==> !is_referenced(views(children@), key@.columns, views(values@)),
        result matches Err(error) ==> error@ == report(
            "23503"@,
            "update or delete on table '"@ + schema@.table_name
                + "' violates foreign key constraint '"@ + key@.name + "'"@,
        ),
{
    let mut i: usize = 0;
    while i < children.len()
        invariant
            i <= children@.len(),
            forall|k: int|
                0 <= k < i ==> !data_eq(
                    fields(#[trigger] views(children@)[k], key@.columns),
                    views(values@),
                ),
        decreases children@.len() - i,
    {
        assert(views(children@)[i as int] == children@[i as int]@);
        let child = foreign_key_values(&children[i], &key.columns);
        if same_values(&child, values) {
            let start = three_texts(
                "update or delete on table '",
                schema.table_name.as_str(),
                "' violates foreign key constraint '",
            );
            return Err(user_error_text("23503", three_texts(start.as_str(), key.name.as_str(), "'")));
        }
        i += 1;
    }
    Ok(())
}

/// Whether two rows of values are written alike item by item.
pub fn values_alike(a: &Vec<ColumnValue>, b: &Vec<ColumnValue>) -> (same: bool)
    ensures
        same == all_alike(views(a@), views(b@)),
{
    if a.len() != b.len() {
        return false;
    }
    let mut i: usize = 0;
    while i < a.len()
        invariant
            i <= a@.len(),
            a@.len() == b@.len(),
            forall|k: int| 0 <= k < i ==> alike(#[trigger] views(a@)[k], views(b@)[k]),
        decreases a@.len() - i,
    {
        assert(views(a@)[i as int] == a@[i as int]@);
        assert(views(b@)[i as int] == b@[i as int]@);
        if !a[i].is_alike(&b[i]) {
            assert(!alike(views(a@)[i as int], views(b@)[i as int]));
            return false;
        }
        i += 1;
    }
    true
}

/// Whether a row counts for a unique constraint: it is not the one that is being written, and
/// has no null among the columns.
pub open spec fn counts(
    entry: EntryModel,
    columns: Seq<Seq<char>>,
    current_key: Option<Datum>,
) -> bool {
    &&& current_key matches Some(key) ==> !datum_eq(key, entry.key)
    &&& !fields(entry.row, columns).contains(Datum::Null)
}

/// Whether rows break a unique constraint: one of them has the values of the row that is being
/// written, or two of them have the same values.
pub open spec fn breaks_unique(
    columns: Seq<Seq<char>>,
    rows: Seq<EntryModel>,
    current_key: Option<Datum>,
    current_row: Option<RowModel>,
) -> bool {
    exists|i: int|
        0 <= i < rows.len() && counts(#[trigger] rows[i], columns, current_key) && (
        clashes_with(columns, rows[i], current_row) || clashes_before(
            columns,
            rows,
            current_key,
            i,
        ))
}

/// Whether a row has the values of the row that is being written.
pub open spec fn clashes_with(
    columns: Seq<Seq<char>>,
    entry: EntryModel,
    current_row: Option<RowModel>,
) -> bool {
    current_row matches Some(row) && data_eq(fields(row, columns), fields(entry.row, columns))
}

/// Whether the values of a row that counts are written like those of one ahead of it that counts
/// too.
pub open spec fn clashes_before(
    columns: Seq<Seq<char>>,
    rows: Seq<EntryModel>,
    current_key: Option<Datum>,
    i: int,
) -> bool {
    exists|j: int|
        0 <= j < i && counts(#[trigger] rows[j], columns, current_key) && all_alike(
            fields(rows[j].row, columns),
            fields(rows[i].row, columns),
        )
}

/// Tests the rows of a table against a unique constraint, with a row that is being written
/// under a key.
pub fn validate_unique_constraint(
    constraint: &UniqueConstraintSchema,
    rows: &Vec<RowEntry>,
    current_key: &Option<ColumnValue>,
    current_row: &Option<RowMap>,
) -> (result: Result<(), UserError>)
    ensures
        result is Ok <==> !breaks_unique(
            constraint@.columns,
            views(rows@),
            option_view(*current_key),
            option_view(*current_row),
        ),
        result matches Err(error) ==> error@ == report(
            "23505"@,
            "duplicate key value violates unique constraint '"@ + constraint@.name + "'"@,
        ),
{
    let ghost columns = constraint@.columns;
    let ghost all = views(rows@);
    let ghost key = option_view(*current_key);
    let ghost writing = option_view(*current_row);
    let mut known: Vec<Vec<ColumnValue>> = Vec::new();
    let ghost mut places: Seq<int> = Seq::empty();
    let mut i: usize = 0;
    while i < rows.len()
        invariant
            i <= rows@.len(),
            columns == constraint@.columns,
            columns == views(constraint.columns@),
            all == views(rows@),
            key == option_view(*current_key),
            writing == option_view(*current_row),
            places.len() == known@.len(),
            forall|k: int|
                0 <= k < known@.len() ==> 0 <= (#[trigger] places[k]) < i && counts(
                    all[places[k]],
                    columns,
                    key,
                ) && fields(all[places[k]].row, columns) == views(known@[k]@),
            forall|a: int|
                0 <= a < i && counts(#[trigger] all[a], columns, key) ==> !clashes_with(
                    columns,
                    all[a],
                    writing,
                ) && !clashes_before(columns, all, key, a) && exists|k: int|
                    0 <= k < known@.len() && (#[trigger] places[k]) == a,
        decreases rows@.len() - i,
    {
        let entry = &rows[i];
        assert(all[i as int] == entry@);
        let same = match current_key {
            Some(current) => current.equals(&entry.key),
            None => false,
        };
        let values = foreign_key_values(&entry.row, &constraint.columns);
        if same || any_null(&values) {
            i += 1;
            continue ;
        }
        assert(counts(all[i as int], columns, key));
        if let Some(row) = current_row {
            let asked = foreign_key_values(row, &constraint.columns);
            if same_values(&asked, &values) {
                assert(clashes_with(columns, all[i as int], writing));
                return Err(unique_error(constraint));
            }
        }
        assert(!clashes_with(columns, all[i as int], writing));
        let mut k: usize = 0;
        while k < known.len()
            invariant
                k <= known@.len(),
                i < rows@.len(),
                columns == constraint@.columns,
                columns == views(constraint.columns@),
                all == views(rows@),
                key == option_view(*current_key),
                writing == option_view(*current_row),
                counts(all[i as int], columns, key),
                views(values@) == fields(all[i as int].row, columns),
                places.len() == known@.len(),
                forall|m: int|
                    0 <= m < known@.len() ==> 0 <= (#[trigger] places[m]) < i && counts(
                        all[places[m]],
                        columns,
                        key,
                    ) && fields(all[places[m]].row, columns) == views(known@[m]@),
                forall|m: int|
                    0 <= m < k ==> !all_alike(views((#[trigger] known@[m])@), views(values@)),
            decreases known@.len() - k,
        {
            if values_alike(&known[k], &values) {
                proof {
                    let j = places[k as int];
                    assert(counts(all[j], columns, key));
                    assert(clashes_before(columns, all, key, i as int));
                }
                return Err(unique_error(constraint));
            }
            k += 1;
        }
        proof {
            assert(!clashes_before(columns, all, key, i as int)) by {
                if clashes_before(columns, all, key, i as int) {
                    let j = choose|j: int|
                        0 <= j < i && counts(#[trigger] all[j], columns, key) && all_alike(
                            fields(all[j].row, columns),
                            fields(all[i as int].row, columns),
                        );
                    let m = choose|m: int| 0 <= m < known@.len() && (#[trigger] places[m]) == j;
                    assert(!all_alike(views(known@[m]@), views(values@)));
                }
            }
        }
        let ghost old_known = known@;
        let ghost old_places = places;
        known.push(values);
        proof {
            places = places.push(i as int);
            assert forall|a: int| 0 <= a < i + 1 && counts(#[trigger] all[a], columns, key) implies
                !clashes_with(columns, all[a], writing) && !clashes_before(columns, all, key, a)
                && exists|k: int| 0 <= k < known@.len() && (#[trigger] places[k]) == a by {
                if a < i {
                    let k = choose|k: int|
                        0 <= k < old_known.len() && (#[trigger] old_places[k]) == a;
                    assert(places[k] == a);
                } else {
                    assert(places[old_known.len() as int] == a);
                }
            }
        }
        i += 1;
    }
    Ok(())
}

fn unique_error(constraint: &UniqueConstraintSchema) -> (error: UserError)
    ensures
        error@ == report(
            "23505"@,
            "duplicate key value violates unique constraint '"@ + constraint@.name + "'"@,
        ),
{
    user_error_text(
        "23505",
        three_texts(
            "duplicate key value violates unique constraint '",
            constraint.name.as_str(),
            "'",
        ),
    )
}

/// Where a row that an insertion would clash with is looked for.
pub enum ConflictSearch {
    Nowhere,
    ByKey(ColumnValue),
    ByValues(Vec<ColumnValue>),
}

/// What a [`ConflictSearch`] says.
pub enum SearchModel {
    Nowhere,
    ByKey(Datum),
    ByValues(Seq<Datum>),
}

impl View for ConflictSearch {
    type V = SearchModel;

    open spec fn view(&self) -> SearchModel {
        match *self {
            ConflictSearch::Nowhere => SearchModel::Nowhere,
            ConflictSearch::ByKey(key) => SearchModel::ByKey(key@),
            ConflictSearch::ByValues(values) => SearchModel::ByValues(views(values@)),
        }
    }
}

/// The first of some columns that a row has no value for.
pub open spec fn absent_column(row: RowModel, columns: Seq<Seq<char>>) -> Option<Seq<char>>
    decreases columns.len(),
{
    if columns.len() == 0 {
        None
    } else if !row.dom().contains(columns[0]) {
        Some(columns[0])
    } else {
        absent_column(row, columns.skip(1))
    }
}

/// Where a row with the values of a candidate in some columns is looked for: nowhere, where
/// one of the values is null; by its key, where the columns are the key; else among the rows.
pub open spec fn conflict_search(
    primary_key: Seq<char>,
    columns: Seq<Seq<char>>,
    candidate: RowModel,
) -> Result<SearchModel, Report> {
    match absent_column(candidate, columns) {
        Some(name) => Err(report("23502"@, "null value for "@ + name)),
        None => if fields(candidate, columns).contains(Datum::Null) {
            Ok(SearchModel::Nowhere)
        } else if columns.len() == 1 && columns[0] == primary_key {
            Ok(SearchModel::ByKey(field(candidate, columns[0])))
        } else {
            Ok(SearchModel::ByValues(fields(candidate, columns)))
        },
    }
}

/// Where a row that an insertion would clash with in some columns is looked for.
pub fn conflict_columns_search(
    schema: &TableSchema,
    target_columns: &Vec<String>,
    candidate: &RowMap,
) -> (result: Result<ConflictSearch, UserError>)
    ensures
        crate::schema::seen(result) == conflict_search(
            schema@.primary_key,
            views(target_columns@),
            candidate@,
        ),
{
    let ghost columns = views(target_columns@);
    let mut i: usize = 0;
    assert(columns.skip(0) =~= columns);
    while i < target_columns.len()
        invariant
            i <= target_columns@.len(),
            columns == views(target_columns@),
            absent_column(candidate@, columns) == absent_column(
                candidate@,
                columns.skip(i as int),
            ),
        decreases target_columns@.len() - i,
    {
        assert(columns.skip(i as int)[0] == target_columns@[i as int]@);
        assert(columns.skip(i as int).skip(1) =~= columns.skip(i + 1));
        if candidate.get(target_columns[i].as_str()).is_none() {
            let mut message = "null value for ".to_string();
            message.push_str(target_columns[i].as_str());
            return Err(user_error_text("23502", message));
        }
        i += 1;
    }
    let mut values = foreign_key_values(candidate, target_columns);
    if any_null(&values) {
        return Ok(ConflictSearch::Nowhere);
    }
    if target_columns.len() == 1 && target_columns[0] == schema.primary_key {
        assert(columns[0] == target_columns@[0]@);
        assert(views(values@)[0] == values@[0]@);
        return Ok(ConflictSearch::ByKey(values.remove(0)));
    }
    Ok(ConflictSearch::ByValues(values))
}

/// The rows with the given values in the given columns.
pub open spec fn matching(columns: Seq<Seq<char>>, values: Seq<Datum>) -> spec_fn(EntryModel) -> bool {
    |entry: EntryModel| matches_columns(entry.row, columns, values)
}

/// The rows that clash: those of the index, where one is on the columns and gives any, else
/// those among all rows.
pub open spec fn conflict_candidates(
    columns: Seq<Seq<char>>,
    values: Seq<Datum>,
    index_rows: Seq<EntryModel>,
    all_rows: Seq<EntryModel>,
) -> Seq<EntryModel> {
    let indexed = kept_where(index_rows, matching(columns, values));
    if indexed.len() > 0 {
        indexed
    } else {
        kept_where(all_rows, matching(columns, values))
    }
}

/// The one row that clashes, where one does; more than one is an error.
pub open spec fn conflict_choice(candidates: Seq<EntryModel>) -> Result<Option<EntryModel>, Report> {
    if candidates.len() == 0 {
        Ok(None)
    } else if candidates.len() == 1 {
        Ok(Some(candidates[0]))
    } else {
        Err(report("23505"@, "duplicate key value violates unique constraint"@))
    }
}

fn matching_rows(
    columns: &Vec<String>,
    values: &Vec<ColumnValue>,
    rows: Vec<RowEntry>,
) -> (found: Vec<RowEntry>)
    ensures
        views(found@) == kept_where(views(rows@), matching(views(columns@), views(values@))),
{
    let ghost all = views(rows@);
    let ghost keep = matching(views(columns@), views(values@));
    let mut found: Vec<RowEntry> = Vec::new();
    let mut i: usize = 0;
    assert(views(found@) =~= kept_where(all.take(0), keep));
    while i < rows.len()
        invariant
            i <= rows@.len(),
            all == views(rows@),
            keep == matching(views(columns@), views(values@)),
            views(found@) == kept_where(all.take(i as int), keep),
        decreases rows@.len() - i,
    {
        assert(all.take(i + 1).drop_last() =~= all.take(i as int));
        assert(all.take(i + 1).last() == rows@[i as int]@);
        let ghost done = views(found@);
        if row_matches_columns(&rows[i].row, columns, values) {
            let entry = rows[i].duplicate();
            let ghost model = entry@;
            found.push(entry);
            assert(views(found@) =~= done.push(model));
        }
        i += 1;
    }
    assert(all.take(i as int) =~= all);
    found
}

/// The row that an insertion clashes with, out of those of an index and of all.
pub fn find_existing_row_for_conflict_columns(
    target_columns: &Vec<String>,
    values: &Vec<ColumnValue>,
    index_rows: Vec<RowEntry>,
    all_rows: Vec<RowEntry>,
) -> (result: Result<Option<RowEntry>, UserError>)
    ensures
        crate::schema::seen_option(result) == conflict_choice(
            conflict_candidates(
                views(target_columns@),
                views(values@),
                views(index_rows@),
                views(all_rows@),
            ),
        ),
{
    let mut candidates = matching_rows(target_columns, values, index_rows);
    if candidates.len() == 0 {
        candidates = matching_rows(target_columns, values, all_rows);
    }
    if candidates.len() == 0 {
        Ok(None)
    } else if candidates.len() == 1 {
        assert(views(candidates@)[0] == candidates@[0]@);
        Ok(Some(candidates.remove(0)))
    } else {
        Err(user_error("23505", "duplicate key value violates unique constraint"))
    }
}

/// A row with the values of assignments in place; an assignment to the key may only repeat it.
pub open spec fn conflict_assigned(
    table: TableModel,
    row: RowModel,
    columns: Seq<Seq<char>>,
    values: Seq<Datum>,
) -> Result<RowModel, Report>
    decreases columns.len(),
{
    if columns.len() == 0 || values.len() == 0 {
        Ok(row)
    } else if !has_column(table.columns, columns[0]) {
        Err(report("42703"@, "column does not exist"@))
    } else if columns[0] == table.primary_key && row.dom().contains(table.primary_key)
        && !datum_eq(row[table.primary_key], values[0]) {
        Err(
            unsupported_report(
                "ON CONFLICT DO UPDATE cannot modify the primary key in fast path"@,
            ),
        )
    } else {
        conflict_assigned(
            table,
            row.insert(columns[0], values[0]),
            columns.skip(1),
            values.skip(1),
        )
    }
}

/// Whether a name is among others but for case.
pub open spec fn named_among(names: Seq<Seq<char>>, name: Seq<char>) -> bool {
    exists|i: int| 0 <= i < names.len() && lower(#[trigger] names[i]) == lower(name)
}

/// A row with the columns that change on every update set anew, but for those that a statement
/// sets itself.
pub open spec fn refreshed(
    columns: Seq<ColumnModel>,
    row: RowModel,
    assigned: Seq<Seq<char>>,
    fresh: Seq<Datum>,
) -> RowModel
    decreases columns.len(),
{
    if columns.len() == 0 || fresh.len() == 0 {
        row
    } else {
        let next = if columns[0].on_update is Some && !named_among(assigned, columns[0].name) {
            row.insert(columns[0].name, fresh[0])
        } else {
            row
        };
        refreshed(columns.skip(1), next, assigned, fresh.skip(1))
    }
}

fn is_named_among(names: &Vec<String>, name: &str) -> (answer: bool)
    ensures
        answer == named_among(views(names@), name@),
{
    let mut i: usize = 0;
    while i < names.len()
        invariant
            i <= names@.len(),
            forall|k: int| 0 <= k < i ==> lower(#[trigger] views(names@)[k]) != lower(name@),
        decreases names@.len() - i,
    {
        assert(views(names@)[i as int] == names@[i as int]@);
        if same_but_for_case(names[i].as_str(), name) {
            return true;
        }
        i += 1;
    }
    false
}

/// Sets the columns that change on every update; `fresh` holds a value for each column.
pub fn apply_on_update_columns(
    row: &mut RowMap,
    schema: &TableSchema,
    assigned: &Vec<String>,
    fresh: &Vec<ColumnValue>,
)
    ensures
        final(row)@ == refreshed(schema@.columns, old(row)@, views(assigned@), views(fresh@)),
{
    let ghost columns = schema@.columns;
    let ghost values = views(fresh@);
    let ghost names = views(assigned@);
    let ghost target = refreshed(columns, row@, names, values);
    let mut i: usize = 0;
    assert(columns.skip(0) =~= columns);
    assert(values.skip(0) =~= values);
    while i < schema.columns.len() && i < fresh.len()
        invariant
            i <= schema.columns@.len(),
            i <= fresh@.len(),
            columns == views(schema.columns@),
            values == views(fresh@),
            names == views(assigned@),
            target == refreshed(columns.skip(i as int), row@, names, values.skip(i as int)),
        decreases schema.columns@.len() - i,
    {
        let column = &schema.columns[i];
        assert(columns.skip(i as int)[0] == column@);
        assert(values.skip(i as int)[0] == fresh@[i as int]@);
        assert(columns.skip(i as int).skip(1) =~= columns.skip(i + 1));
        assert(values.skip(i as int).skip(1) =~= values.skip(i + 1));
        if column.on_update.is_some() && !is_named_among(assigned, column.name.as_str()) {
            row.insert(column.name.clone(), fresh[i].copied());
        }
        i += 1;
    }
}

/// The columns of assignments.
pub open spec fn assigned_columns(assignments: Seq<AssignmentModel>) -> Seq<Seq<char>> {
    assignments.map_values(|assignment: AssignmentModel| assignment.column)
}

/// The columns of assignments.
pub fn columns_assigned(assignments: &Vec<UpdateAssignment>) -> (names: Vec<String>)
    ensures
        views(names@) == assigned_columns(views(assignments@)),
{
    let mut names: Vec<String> = Vec::new();
    let mut i: usize = 0;
    while i < assignments.len()
        invariant
            i <= assignments@.len(),
            names@.len() == i,
            forall|k: int|
                0 <= k < i ==> (#[trigger] names@[k])@ == views(assignments@)[k].column,
        decreases assignments@.len() - i,
    {
        assert(views(assignments@)[i as int] == assignments@[i as int]@);
        names.push(assignments[i].column.clone());
        i += 1;
    }
    assert(views(names@) =~= assigned_columns(views(assignments@)));
    names
}

/// The row that an insertion turns an existing one into, where the condition of the statement
/// holds of it; `values` are those of the assignments, `fresh` those that columns change to on
/// every update.
pub open spec fn conflict_updated(
    table: TableModel,
    existing: RowModel,
    selected: bool,
    assignments: Seq<AssignmentModel>,
    values: Seq<Datum>,
    fresh: Seq<Datum>,
) -> Result<Option<RowModel>, Report> {
    if !selected {
        Ok(None)
    } else {
        match conflict_assigned(table, existing, assigned_columns(assignments), values) {
            Err(error) => Err(error),
            Ok(row) => Ok(
                Some(refreshed(table.columns, row, assigned_columns(assignments), fresh)),
            ),
        }
    }
}

/// The row that an insertion turns an existing one into.
pub fn apply_insert_conflict_update(
    schema: &TableSchema,
    existing: RowMap,
    selected: bool,
    assignments: &Vec<UpdateAssignment>,
    values: &Vec<ColumnValue>,
    fresh: &Vec<ColumnValue>,
) -> (result: Result<Option<RowMap>, UserError>)
    ensures
        crate::schema::seen_option(result) == conflict_updated(
            schema@,
            existing@,
            selected,
            views(assignments@),
            views(values@),
            views(fresh@),
        ),
{
    if !selected {
        return Ok(None);
    }
    let names = columns_assigned(assignments);
    let ghost columns = views(names@);
    let ghost data = views(values@);
    let ghost target = conflict_assigned(schema@, existing@, columns, data);
    let mut row = existing;
    let mut i: usize = 0;
    assert(columns.skip(0) =~= columns);
    assert(data.skip(0) =~= data);
    while i < names.len() && i < values.len()
        invariant
            i <= names@.len(),
            i <= values@.len(),
            columns == views(names@),
            data == views(values@),
            selected,
            columns == assigned_columns(views(assignments@)),
            target == conflict_assigned(schema@, existing@, columns, data),
            target == conflict_assigned(
                schema@,
                row@,
                columns.skip(i as int),
                data.skip(i as int),
            ),
        decreases names@.len() - i,
    {
        assert(columns.skip(i as int)[0] == names@[i as int]@);
        assert(data.skip(i as int)[0] == values@[i as int]@);
        assert(columns.skip(i as int).skip(1) =~= columns.skip(i + 1));
        assert(data.skip(i as int).skip(1) =~= data.skip(i + 1));
        if schema.find_column(names[i].as_str()).is_none() {
            return Err(user_error("42703", "column does not exist"));
        }
        if names[i] == schema.primary_key {
            if let Some(current) = row.get(schema.primary_key.as_str()) {
                if !current.equals(&values[i]) {
                    return Err(
                        unsupported(
                            "ON CONFLICT DO UPDATE cannot modify the primary key in fast path",
                        ),
                    );
                }
            }
        }
        row.insert(names[i].clone(), values[i].copied());
        i += 1;
    }
    apply_on_update_columns(&mut row, schema, &names, fresh);
    Ok(Some(row))
}

/// A row with the values of assignments in place.
pub open spec fn update_assigned(
    table: TableModel,
    row: RowModel,
    columns: Seq<Seq<char>>,
    values: Seq<Datum>,
) -> Result<RowModel, Report>
    decreases columns.len(),
{
    if columns.len() == 0 || values.len() == 0 {
        Ok(row)
    } else if !has_column(table.columns, columns[0]) {
        Err(report("42703"@, "column '"@ + columns[0] + "' not found"@))
    } else {
        update_assigned(
            table,
            row.insert(columns[0], values[0]),
            columns.skip(1),
            values.skip(1),
        )
    }
}

/// What an update makes of a row.
pub open spec fn row_updated(
    table: TableModel,
    row: RowModel,
    assignments: Seq<AssignmentModel>,
    values: Seq<Datum>,
    fresh: Seq<Datum>,
) -> Result<RowModel, Report> {
    match update_assigned(table, row, assigned_columns(assignments), values) {
        Err(error) => Err(error),
        Ok(next) => Ok(refreshed(table.columns, next, assigned_columns(assignments), fresh)),
    }
}

/// Puts the values of assignments into a row and sets the columns that change on every update.
pub fn apply_update_assignments(
    row: RowMap,
    schema: &TableSchema,
    assignments: &Vec<UpdateAssignment>,
    values: &Vec<ColumnValue>,
    fresh: &Vec<ColumnValue>,
) -> (result: Result<RowMap, UserError>)
    ensures
        crate::schema::seen(result) == row_updated(
            schema@,
            row@,
            views(assignments@),
            views(values@),
            views(fresh@),
        ),
{
    let names = columns_assigned(assignments);
    let ghost columns = views(names@);
    let ghost data = views(values@);
    let ghost before = row@;
    let ghost target = update_assigned(schema@, before, columns, data);
    let mut next = row;
    let mut i: usize = 0;
    assert(columns.skip(0) =~= columns);
    assert(data.skip(0) =~= data);
    while i < names.len() && i < values.len()
        invariant
            i <= names@.len(),
            i <= values@.len(),
            columns == views(names@),
            data == views(values@),
            columns == assigned_columns(views(assignments@)),
            target == update_assigned(schema@, before, columns, data),
            before == row@,
            target == update_assigned(schema@, next@, columns.skip(i as int), data.skip(i as int)),
        decreases names@.len() - i,
    {
        assert(columns.skip(i as int)[0] == names@[i as int]@);
        assert(data.skip(i as int)[0] == values@[i as int]@);
        assert(columns.skip(i as int).skip(1) =~= columns.skip(i + 1));
        assert(data.skip(i as int).skip(1) =~= data.skip(i + 1));
        if schema.find_column(names[i].as_str()).is_none() {
            return Err(
                user_error_text("42703", three_texts("column '", names[i].as_str(), "' not found")),
            );
        }
        next.insert(names[i].clone(), values[i].copied());
        i += 1;
    }
    apply_on_update_columns(&mut next, schema, &names, fresh);
    Ok(next)
}

/// An update leaves the columns that it does not set, and that do not change by themselves,
/// as they were.
pub proof fn law_update_keeps_other_columns(
    table: TableModel,
    row: RowModel,
    assignments: Seq<AssignmentModel>,
    values: Seq<Datum>,
    fresh: Seq<Datum>,
    name: Seq<char>,
)
    requires
        row_updated(table, row, assignments, values, fresh) is Ok,
        !assigned_columns(assignments).contains(name),
        forall|i: int|
            0 <= i < table.columns.len() && (#[trigger] table.columns[i]).name == name
                ==> table.columns[i].on_update is None,
    ensures
        row_updated(table, row, assignments, values, fresh)->Ok_0.dom().contains(name)
            == row.dom().contains(name),
        field(row_updated(table, row, assignments, values, fresh)->Ok_0, name) == field(row, name),
{
    let columns = assigned_columns(assignments);
    lemma_assigned_keeps(table, row, columns, values, name);
    let next = update_assigned(table, row, columns, values)->Ok_0;
    lemma_refreshed_keeps(table.columns, next, columns, fresh, name);
}

proof fn lemma_assigned_keeps(
    table: TableModel,
    row: RowModel,
    columns: Seq<Seq<char>>,
    values: Seq<Datum>,
    name: Seq<char>,
)
    requires
        update_assigned(table, row, columns, values) is Ok,
        !columns.contains(name),
    ensures
        update_assigned(table, row, columns, values)->Ok_0.dom().contains(name)
            == row.dom().contains(name),
        field(update_assigned(table, row, columns, values)->Ok_0, name) == field(row, name),
    decreases columns.len(),
{
    if columns.len() > 0 && values.len() > 0 {
        assert(columns[0] != name) by {
            assert(columns.contains(columns[0]));
        }
        assert(!columns.skip(1).contains(name)) by {
            if columns.skip(1).contains(name) {
                let i = choose|i: int| 0 <= i < columns.skip(1).len() && columns.skip(1)[i] == name;
                assert(columns[i + 1] == name);
            }
        }
        lemma_assigned_keeps(
            table,
            row.insert(columns[0], values[0]),
            columns.skip(1),
            values.skip(1),
            name,
        );
    }
}

proof fn lemma_refreshed_keeps(
    columns: Seq<ColumnModel>,
    row: RowModel,
    assigned: Seq<Seq<char>>,
    fresh: Seq<Datum>,
    name: Seq<char>,
)
    requires
        forall|i: int|
            0 <= i < columns.len() && (#[trigger] columns[i]).name == name
                ==> columns[i].on_update is None,
    ensures
        refreshed(columns, row, assigned, fresh).dom().contains(name) == row.dom().contains(name),
        field(refreshed(columns, row, assigned, fresh), name) == field(row, name),
    decreases columns.len(),
{
    if columns.len() > 0 && fresh.len() > 0 {
        let next = if columns[0].on_update is Some && !named_among(assigned, columns[0].name) {
            row.insert(columns[0].name, fresh[0])
        } else {
            row
        };
        assert forall|i: int|
            0 <= i < columns.skip(1).len() && (#[trigger] columns.skip(1)[i]).name
                == name implies columns.skip(1)[i].on_update is None by {
            assert(columns.skip(1)[i] == columns[i + 1]);
        }
        lemma_refreshed_keeps(columns.skip(1), next, assigned, fresh.skip(1), name);
    }
}

impl Ordered for RowEntry {
    open spec fn before(a: EntryModel, b: EntryModel) -> bool {
        datum_less(a.key, b.key)
    }

    fn comes_before(&self, other: &Self) -> (answer: bool) {
        value_less(&self.key, &other.key)
    }
}

/// The rows that a statement changes: in the order of their keys, where it asks for that, and
/// no more than its limit.
pub open spec fn write_limited(
    rows: Seq<EntryModel>,
    limit: Option<usize>,
    order_by_primary_key: bool,
) -> Seq<EntryModel> {
    let ordered = if order_by_primary_key {
        sorted(rows, order_of::<RowEntry>())
    } else {
        rows
    };
    match limit {
        Some(n) => if n < ordered.len() {
            ordered.take(n as int)
        } else {
            ordered
        },
        None => ordered,
    }
}

/// The rows that a statement changes.
pub fn apply_write_limit(
    rows: Vec<RowEntry>,
    limit: Option<usize>,
    order_by_primary_key: bool,
) -> (kept: Vec<RowEntry>)
    ensures
        views(kept@) == write_limited(views(rows@), limit, order_by_primary_key),
{
    let mut kept = if order_by_primary_key {
        sort_items(rows)
    } else {
        rows
    };
    if let Some(n) = limit {
        if n < kept.len() {
            let ghost before = views(kept@);
            kept.truncate(n);
            assert(views(kept@) =~= before.take(n as int));
        }
    }
    kept
}

/// A limit on rows in the order of their keys keeps the first of them, in order: no row that is
/// left out comes before one that is kept. The keys hold no number that is not one.
pub proof fn law_write_limit_keeps_the_smallest_keys(rows: Seq<EntryModel>, limit: usize)
    requires
        forall|i: int| 0 <= i < rows.len() ==> without_nan((#[trigger] rows[i]).key),
    ensures
        ({
            let kept = write_limited(rows, Some(limit), true);
            &&& kept.len() == (if limit < rows.len() {
                limit as nat
            } else {
                rows.len()
            })
            &&& in_order(kept, order_of::<RowEntry>())
            &&& exists|left: Seq<EntryModel>|
                #![trigger kept + left]
                (kept + left).to_multiset() == rows.to_multiset() && forall|i: int, j: int|
                    0 <= i < kept.len() && 0 <= j < left.len() ==> !datum_less(
                        (#[trigger] left[j]).key,
                        (#[trigger] kept[i]).key,
                    )
        }),
{
    broadcast use vstd::seq_lib::group_to_multiset_ensures;

    let before = order_of::<RowEntry>();
    assert(strict_on(rows.to_set(), before)) by {
        assert forall|a: EntryModel, b: EntryModel| #[trigger]
            before(a, b) && rows.to_set().contains(a) && rows.to_set().contains(b) implies !before(
            b,
            a,
        ) by {
            lemma_key_of(rows, a);
            lemma_key_of(rows, b);
            law_values_are_ordered(a.key, b.key, b.key);
        }
        assert forall|a: EntryModel, b: EntryModel, c: EntryModel| #[trigger]
            before(a, b) && !#[trigger] before(c, b) && rows.to_set().contains(a)
                && rows.to_set().contains(b) && rows.to_set().contains(c) implies before(a, c) by {
            lemma_key_of(rows, a);
            lemma_key_of(rows, b);
            lemma_key_of(rows, c);
            law_values_are_ordered(a.key, b.key, c.key);
        }
    }
    law_sorted(rows, before);
    let all = sorted(rows, before);
    assert(all.len() == rows.len()) by {
        assert(all.to_multiset().len() == rows.to_multiset().len());
    }
    let kept = write_limited(rows, Some(limit), true);
    let left = all.skip(kept.len() as int);
    assert(kept =~= all.take(kept.len() as int));
    assert(kept + left =~= all);
    assert forall|i: int, j: int| 0 <= i < kept.len() && 0 <= j < left.len() implies !datum_less(
        (#[trigger] left[j]).key,
        (#[trigger] kept[i]).key,
    ) by {
        assert(left[j] == all[kept.len() + j]);
        assert(kept[i] == all[i]);
        assert(!before(all[kept.len() + j], all[i]));
    }
    assert(in_order(kept, before)) by {
        assert forall|i: int, j: int| 0 <= i < j < kept.len() implies !before(
            #[trigger] kept[j],
            #[trigger] kept[i],
        ) by {
            assert(kept[j] == all[j] && kept[i] == all[i]);
        }
    }
}

proof fn lemma_key_of(rows: Seq<EntryModel>, entry: EntryModel)
    requires
        forall|i: int| 0 <= i < rows.len() ==> without_nan((#[trigger] rows[i]).key),
        rows.to_set().contains(entry),
    ensures
        without_nan(entry.key),
{
    let i = rows.index_of(entry);
    assert(rows.contains(entry));
    assert(rows[i] == entry);
}

/// What a part of a column holds: how many nulls, the least and the greatest of the others.
#[derive(Debug)]
pub struct ColumnZoneMap {
    pub column_id: u32,
    pub null_count: u64,
    pub min: Option<ColumnValue>,
    pub max: Option<ColumnValue>,
}

/// What a [`ColumnZoneMap`] says.
pub struct ZoneModel {
    pub column_id: u32,
    pub null_count: u64,
    pub min: Option<Datum>,
    pub max: Option<Datum>,
}

impl View for ColumnZoneMap {
    type V = ZoneModel;

    open spec fn view(&self) -> ZoneModel {
        ZoneModel {
            column_id: self.column_id,
            null_count: self.null_count,
            min: option_view(self.min),
            max: option_view(self.max),
        }
    }
}

/// A zone with one more value.
pub open spec fn zone_with(zone: ZoneModel, value: Datum) -> ZoneModel {
    if value == Datum::Null {
        ZoneModel {
            null_count: if zone.null_count < u64::MAX {
                (zone.null_count + 1) as u64
            } else {
                u64::MAX
            },
            ..zone
        }
    } else {
        ZoneModel {
            min: if zone.min matches Some(least) && !datum_less(value, least) {
                zone.min
            } else {
                Some(value)
            },
            max: if zone.max matches Some(greatest) && !datum_less(greatest, value) {
                zone.max
            } else {
                Some(value)
            },
            ..zone
        }
    }
}

/// Takes one more value into a zone.
pub fn update_zone(zone: &mut ColumnZoneMap, value: &ColumnValue)
    ensures
        final(zone)@ == zone_with(old(zone)@, value@),
{
    if value.is_null() {
        if zone.null_count < u64::MAX {
            zone.null_count = zone.null_count + 1;
        }
        return ;
    }
    let smaller = match &zone.min {
        Some(least) => value_less(value, least),
        None => true,
    };
    if smaller {
        zone.min = Some(value.copied());
    }
    let greater = match &zone.max {
        Some(greatest) => value_less(greatest, value),
        None => true,
    };
    if greater {
        zone.max = Some(value.copied());
    }
}

/// The zone of a column over rows.
pub open spec fn zone_over(column: ColumnModel, rows: Seq<RowModel>) -> ZoneModel
    decreases rows.len(),
{
    if rows.len() == 0 {
        ZoneModel { column_id: column.column_id, null_count: 0, min: None, max: None }
    } else {
        zone_with(zone_over(column, rows.drop_last()), field(rows.last(), column.name))
    }
}

/// The zones of the columns of a table over rows.
pub open spec fn zones_over(columns: Seq<ColumnModel>, rows: Seq<RowModel>) -> Seq<ZoneModel> {
    columns.map_values(|column: ColumnModel| zone_over(column, rows))
}

/// The zones of the columns of a table over rows.
pub fn zone_maps_for_rows(schema: &TableSchema, rows: &Vec<RowMap>) -> (zones: Vec<ColumnZoneMap>)
    ensures
        views(zones@) == zones_over(schema@.columns, views(rows@)),
{
    let ghost all = views(rows@);
    let mut zones: Vec<ColumnZoneMap> = Vec::new();
    let mut i: usize = 0;
    while i < schema.columns.len()
        invariant
            i <= schema.columns@.len(),
            all == views(rows@),
            zones@.len() == i,
            forall|k: int|
                0 <= k < i ==> (#[trigger] zones@[k])@ == zone_over(schema@.columns[k], all),
        decreases schema.columns@.len() - i,
    {
        let column = &schema.columns[i];
        assert(schema@.columns[i as int] == column@);
        let mut zone = ColumnZoneMap {
            column_id: column.column_id,
            null_count: 0,
            min: None,
            max: None,
        };
        let mut j: usize = 0;
        while j < rows.len()
            invariant
                j <= rows@.len(),
                all == views(rows@),
                zone@ == zone_over(column@, all.take(j as int)),
            decreases rows@.len() - j,
        {
            assert(all.take(j + 1).drop_last() =~= all.take(j as int));
            assert(all.take(j + 1).last() == rows@[j as int]@);
            let value = rows[j].value_or_null(column.name.as_str());
            update_zone(&mut zone, &value);
            j += 1;
        }
        assert(all.take(j as int) =~= all);
        zones.push(zone);
        i += 1;
    }
    assert(views(zones@) =~= zones_over(schema@.columns, all));
    zones
}

/// The bounds of a zone are values of its column, and a zone of rows with a value has both.
pub proof fn law_zone_bounds_are_values(column: ColumnModel, rows: Seq<RowModel>)
    ensures
        zone_over(column, rows).min matches Some(least) ==> exists|i: int|
            0 <= i < rows.len() && field(#[trigger] rows[i], column.name) == least,
        zone_over(column, rows).max matches Some(greatest) ==> exists|i: int|
            0 <= i < rows.len() && field(#[trigger] rows[i], column.name) == greatest,
        (exists|i: int|
            0 <= i < rows.len() && field(#[trigger] rows[i], column.name) != Datum::Null) ==> (
        zone_over(column, rows).min is Some && zone_over(column, rows).max is Some),
    decreases rows.len(),
{
    if rows.len() > 0 {
        let init = rows.drop_last();
        law_zone_bounds_are_values(column, init);
        let before = zone_over(column, init);
        let after = zone_over(column, rows);
        assert(rows[rows.len() - 1] == rows.last());
        if let Some(least) = after.min {
            if before.min == Some(least) {
                let i = choose|i: int|
                    0 <= i < init.len() && field(#[trigger] init[i], column.name) == least;
                assert(rows[i] == init[i]);
            } else {
                assert(field(rows[rows.len() - 1], column.name) == least);
            }
        }
        if let Some(greatest) = after.max {
            if before.max == Some(greatest) {
                let i = choose|i: int|
                    0 <= i < init.len() && field(#[trigger] init[i], column.name) == greatest;
                assert(rows[i] == init[i]);
            } else {
                assert(field(rows[rows.len() - 1], column.name) == greatest);
            }
        }
        if exists|i: int|
            0 <= i < rows.len() && field(#[trigger] rows[i], column.name) != Datum::Null {
            let i = choose|i: int|
                0 <= i < rows.len() && field(#[trigger] rows[i], column.name) != Datum::Null;
            if i < init.len() {
                assert(init[i] == rows[i]);
            }
        }
    }
}

/// How many rows have no value in a column.
pub open spec fn nulls_over(column: ColumnModel, rows: Seq<RowModel>) -> nat
    decreases rows.len(),
{
    if rows.len() == 0 {
        0
    } else if field(rows.last(), column.name) == Datum::Null {
        nulls_over(column, rows.drop_last()) + 1
    } else {
        nulls_over(column, rows.drop_last())
    }
}

/// The nulls of a zone are those of its rows, as far as they can be counted.
pub proof fn law_zone_counts_nulls(column: ColumnModel, rows: Seq<RowModel>)
    ensures
        zone_over(column, rows).null_count == (if nulls_over(column, rows) <= u64::MAX {
            nulls_over(column, rows)
        } else {
            u64::MAX as nat
        }),
        zone_over(column, rows).column_id == column.column_id,
    decreases rows.len(),
{
    if rows.len() > 0 {
        law_zone_counts_nulls(column, rows.drop_last());
    }
}

/// No value of a column comes before the least of its zone or behind the greatest, where no value
/// holds a number that is not one.
pub proof fn law_zone_bounds_hold_all_values(column: ColumnModel, rows: Seq<RowModel>, i: int)
    requires
        forall|k: int|
            0 <= k < rows.len() ==> without_nan(field(#[trigger] rows[k], column.name)),
        0 <= i < rows.len(),
        field(rows[i], column.name) != Datum::Null,
    ensures
        zone_over(column, rows).min matches Some(least) && !datum_less(
            field(rows[i], column.name),
            least,
        ),
        zone_over(column, rows).max matches Some(greatest) && !datum_less(
            greatest,
            field(rows[i], column.name),
        ),
    decreases rows.len(),
{
    let init = rows.drop_last();
    let last = field(rows.last(), column.name);
    let value = field(rows[i], column.name);
    assert(rows[rows.len() - 1] == rows.last());
    assert forall|k: int| 0 <= k < init.len() implies without_nan(
        field(#[trigger] init[k], column.name),
    ) by {
        assert(init[k] == rows[k]);
    }
    law_zone_bounds_are_values(column, init);
    if i < init.len() {
        assert(init[i] == rows[i]);
        law_zone_bounds_hold_all_values(column, init, i);
        let before = zone_over(column, init);
        let least = before.min->0;
        let greatest = before.max->0;
        let low = choose|k: int|
            0 <= k < init.len() && field(#[trigger] init[k], column.name) == least;
        let high = choose|k: int|
            0 <= k < init.len() && field(#[trigger] init[k], column.name) == greatest;
        assert(without_nan(field(init[low], column.name)));
        assert(without_nan(field(init[high], column.name)));
        law_values_are_ordered(value, last, least);
        law_values_are_ordered(greatest, last, value);
    } else {
        law_values_are_ordered(value, value, value);
    }
}

} // verus!
