//! Changes of the description of a table.
use vstd::prelude::*;

use crate::error::{
    report, unsupported, unsupported_report, user_error, user_error_text, Report, UserError,
};
use crate::lists::{kept_where, lemma_kept_where};
use crate::row::{field, RowMap};
use crate::schema::{
    column_position, contains_name, duplicate_all, has_column, largest_column_id,
    lemma_column_position, option_view, seen, views, CheckConstraintSchema, CheckModel, ColumnModel,
    ColumnSchema, Duplicate, ForeignKeyConstraintSchema, ForeignKeyModel, TableModel, TableSchema,
    UniqueConstraintSchema, UniqueModel,
};
use crate::server::plan::{AlterModel, TableAlterOperation};
use crate::server::rows::{
    breaks_unique, validate_unique_constraint, CheckVerdict, EntryModel, RowEntry, VerdictModel,
};
use crate::server::sequences::{
    auto_increment_column, mysql_auto_increment_column, nextval_name, nextval_sequence_name,
};
use crate::text::{
    chars_of, contains_text, has_text, lower, same_but_for_case, same_text, three_texts,
};
use crate::types::{ColumnValue, Datum};

verus! {

/// The version that follows.
pub open spec fn next_version(version: u32) -> u32 {
    if version < u32::MAX {
        (version + 1) as u32
    } else {
        u32::MAX
    }
}

/// A description with the version that follows.
pub open spec fn versioned(table: TableModel) -> TableModel {
    TableModel { schema_version: next_version(table.schema_version), ..table }
}

fn raise_version(schema: &mut TableSchema)
    ensures
        final(schema)@ == versioned(old(schema)@),
{
    if schema.schema_version < u32::MAX {
        schema.schema_version = schema.schema_version + 1;
    }
}

/// What is to be done with the rows of a table whose description changes.
pub enum RowWork {
    /// They stay as they are.
    Keep,
    /// Each gets a value for a new column.
    AddValue(ColumnSchema),
    /// Each loses its value for a column.
    RemoveValue(String),
}

/// What a [`RowWork`] says.
pub enum WorkModel {
    Keep,
    AddValue(ColumnModel),
    RemoveValue(Seq<char>),
}

impl View for RowWork {
    type V = WorkModel;

    open spec fn view(&self) -> WorkModel {
        match *self {
            RowWork::Keep => WorkModel::Keep,
            RowWork::AddValue(column) => WorkModel::AddValue(column@),
            RowWork::RemoveValue(name) => WorkModel::RemoveValue(name@),
        }
    }
}

/// What a change of the description of a table comes to.
pub enum AlterChange {
    /// Nothing changes.
    Nothing,
    /// The description becomes another one; `refresh` asks for the statistics to be made anew.
    Store { schema: TableSchema, work: RowWork, refresh: bool },
    /// The table gets another name.
    RenameTable { new_name: String },
    /// The table gets an index.
    CreateIndex { index_name: String, column_names: Vec<String>, unique: bool, if_not_exists: bool },
    /// The table loses an index.
    DropIndex { index_name: String, if_exists: bool },
    /// An index gets another name.
    RenameIndex { old_name: String, new_name: String },
    /// A sequence goes on from a value.
    AdvanceSequence { sequence: String, value: i64 },
}

/// What an [`AlterChange`] says.
pub enum ChangeModel {
    Nothing,
    Store { schema: TableModel, work: WorkModel, refresh: bool },
    RenameTable { new_name: Seq<char> },
    CreateIndex {
        index_name: Seq<char>,
        column_names: Seq<Seq<char>>,
        unique: bool,
        if_not_exists: bool,
    },
    DropIndex { index_name: Seq<char>, if_exists: bool },
    RenameIndex { old_name: Seq<char>, new_name: Seq<char> },
    AdvanceSequence { sequence: Seq<char>, value: i64 },
}

impl View for AlterChange {
    type V = ChangeModel;

    open spec fn view(&self) -> ChangeModel {
        match *self {
            AlterChange::Nothing => ChangeModel::Nothing,
            AlterChange::Store { schema, work, refresh } => ChangeModel::Store {
                schema: schema@,
                work: work@,
                refresh,
            },
            AlterChange::RenameTable { new_name } => ChangeModel::RenameTable {
                new_name: new_name@,
            },
            AlterChange::CreateIndex { index_name, column_names, unique, if_not_exists } => {
                ChangeModel::CreateIndex {
                    index_name: index_name@,
                    column_names: views(column_names@),
                    unique,
                    if_not_exists,
                }
            },
            AlterChange::DropIndex { index_name, if_exists } => ChangeModel::DropIndex {
                index_name: index_name@,
                if_exists,
            },
            AlterChange::RenameIndex { old_name, new_name } => ChangeModel::RenameIndex {
                old_name: old_name@,
                new_name: new_name@,
            },
            AlterChange::AdvanceSequence { sequence, value } => ChangeModel::AdvanceSequence {
                sequence: sequence@,
                value,
            },
        }
    }
}

/// The error of a column that is not there.
pub open spec fn no_column(name: Seq<char>) -> Report {
    report("42703"@, "column '"@ + name + "' not found"@)
}

/// The error of a column that is there already.
pub open spec fn column_exists(name: Seq<char>) -> Report {
    report("42701"@, "column '"@ + name + "' already exists"@)
}

/// The error of a column that may not be null and is in some row.
pub open spec fn column_has_nulls(name: Seq<char>) -> Report {
    report("23502"@, "column '"@ + name + "' contains null values"@)
}

/// Makes the error of a column that is not there.
pub fn no_column_error(name: &str) -> (error: UserError)
    ensures
        error@ == no_column(name@),
{
    user_error_text("42703", three_texts("column '", name, "' not found"))
}

fn column_exists_error(name: &str) -> (error: UserError)
    ensures
        error@ == column_exists(name@),
{
    user_error_text("42701", three_texts("column '", name, "' already exists"))
}

fn column_nulls_error(name: &str) -> (error: UserError)
    ensures
        error@ == column_has_nulls(name@),
{
    user_error_text("23502", three_texts("column '", name, "' contains null values"))
}

/// Names with one of them replaced by another.
pub open spec fn renamed(names: Seq<Seq<char>>, old_name: Seq<char>, new_name: Seq<char>) -> Seq<
    Seq<char>,
> {
    names.map_values(
        |name: Seq<char>|
            if name == old_name {
                new_name
            } else {
                name
            },
    )
}

fn rename_in(names: &Vec<String>, old_name: &str, new_name: &str) -> (result: Vec<String>)
    ensures
        views(result@) == renamed(views(names@), old_name@, new_name@),
{
    let mut result: Vec<String> = Vec::new();
    let mut i: usize = 0;
    while i < names.len()
        invariant
            i <= names@.len(),
            result@.len() == i,
            forall|k: int|
                0 <= k < i ==> (#[trigger] result@[k])@ == renamed(
                    views(names@),
                    old_name@,
                    new_name@,
                )[k],
        decreases names@.len() - i,
    {
        assert(views(names@)[i as int] == names@[i as int]@);
        if same_text(names[i].as_str(), old_name) {
            result.push(new_name.to_string());
        } else {
            result.push(names[i].clone());
        }
        i += 1;
    }
    assert(views(result@) =~= renamed(views(names@), old_name@, new_name@));
    result
}

/// Unique constraints on a column that gets another name.
pub open spec fn uniques_renamed(
    constraints: Seq<UniqueModel>,
    old_name: Seq<char>,
    new_name: Seq<char>,
) -> Seq<UniqueModel> {
    constraints.map_values(
        |constraint: UniqueModel|
            UniqueModel { columns: renamed(constraint.columns, old_name, new_name), ..constraint },
    )
}

/// Foreign keys on a column that gets another name.
pub open spec fn keys_renamed(
    keys: Seq<ForeignKeyModel>,
    old_name: Seq<char>,
    new_name: Seq<char>,
) -> Seq<ForeignKeyModel> {
    keys.map_values(
        |key: ForeignKeyModel|
            ForeignKeyModel { columns: renamed(key.columns, old_name, new_name), ..key },
    )
}

fn rename_uniques(constraints: &Vec<UniqueConstraintSchema>, old_name: &str, new_name: &str) -> (
result: Vec<UniqueConstraintSchema>)
    ensures
        views(result@) == uniques_renamed(views(constraints@), old_name@, new_name@),
{
    let mut result: Vec<UniqueConstraintSchema> = Vec::new();
    let mut i: usize = 0;
    while i < constraints.len()
        invariant
            i <= constraints@.len(),
            result@.len() == i,
            forall|k: int|
                0 <= k < i ==> (#[trigger] result@[k])@ == uniques_renamed(
                    views(constraints@),
                    old_name@,
                    new_name@,
                )[k],
        decreases constraints@.len() - i,
    {
        assert(views(constraints@)[i as int] == constraints@[i as int]@);
        result.push(
            UniqueConstraintSchema {
                name: constraints[i].name.clone(),
                columns: rename_in(&constraints[i].columns, old_name, new_name),
                primary_key: constraints[i].primary_key,
            },
        );
        i += 1;
    }
    assert(views(result@) =~= uniques_renamed(views(constraints@), old_name@, new_name@));
    result
}

fn rename_keys(keys: &Vec<ForeignKeyConstraintSchema>, old_name: &str, new_name: &str) -> (result:
    Vec<ForeignKeyConstraintSchema>)
    ensures
        views(result@) == keys_renamed(views(keys@), old_name@, new_name@),
{
    let mut result: Vec<ForeignKeyConstraintSchema> = Vec::new();
    let mut i: usize = 0;
    while i < keys.len()
        invariant
            i <= keys@.len(),
            result@.len() == i,
            forall|k: int|
                0 <= k < i ==> (#[trigger] result@[k])@ == keys_renamed(
                    views(keys@),
                    old_name@,
                    new_name@,
                )[k],
        decreases keys@.len() - i,
    {
        assert(views(keys@)[i as int] == keys@[i as int]@);
        result.push(
            ForeignKeyConstraintSchema {
                name: keys[i].name.clone(),
                columns: rename_in(&keys[i].columns, old_name, new_name),
                foreign_table: keys[i].foreign_table.clone(),
                referred_columns: duplicate_all(&keys[i].referred_columns),
            },
        );
        i += 1;
    }
    assert(views(result@) =~= keys_renamed(views(keys@), old_name@, new_name@));
    result
}

/// A description with one more column.
pub open spec fn column_added(
    table: TableModel,
    column: ColumnModel,
    if_not_exists: bool,
    any_rows: bool,
) -> Result<ChangeModel, Report> {
    if has_column(table.columns, column.name) {
        if if_not_exists {
            Ok(ChangeModel::Nothing)
        } else {
            Err(column_exists(column.name))
        }
    } else if !column.nullable && column.default is None && any_rows {
        Err(column_has_nulls(column.name))
    } else {
        let numbered = ColumnModel {
            column_id: next_column_id(table.columns),
            ..column
        };
        Ok(
            ChangeModel::Store {
                schema: versioned(
                    TableModel { columns: table.columns.push(numbered), ..table },
                ),
                work: WorkModel::AddValue(numbered),
                refresh: true,
            },
        )
    }
}

/// The identifier of a column that joins others: the next one, around the end of its range.
pub open spec fn next_column_id(columns: Seq<ColumnModel>) -> u32 {
    if largest_column_id(columns) < u32::MAX {
        (largest_column_id(columns) + 1) as u32
    } else {
        0
    }
}

fn find_largest_id(columns: &Vec<ColumnSchema>) -> (largest: u32)
    ensures
        largest == largest_column_id(views(columns@)),
{
    let ghost all = views(columns@);
    let mut largest: u32 = 0;
    let mut i: usize = 0;
    assert(all.take(0) =~= Seq::<ColumnModel>::empty());
    while i < columns.len()
        invariant
            i <= columns@.len(),
            all == views(columns@),
            largest == largest_column_id(all.take(i as int)),
        decreases columns@.len() - i,
    {
        assert(all.take(i + 1).drop_last() =~= all.take(i as int));
        assert(all.take(i + 1).last() == columns@[i as int]@);
        if columns[i].column_id > largest {
            largest = columns[i].column_id;
        }
        i += 1;
    }
    assert(all.take(i as int) =~= all);
    largest
}

fn add_column(
    schema: TableSchema,
    column: ColumnSchema,
    if_not_exists: bool,
    any_rows: bool,
) -> (result: Result<AlterChange, UserError>)
    ensures
        seen(result) == column_added(schema@, column@, if_not_exists, any_rows),
{
    if schema.find_column(column.name.as_str()).is_some() {
        if if_not_exists {
            return Ok(AlterChange::Nothing);
        }
        return Err(column_exists_error(column.name.as_str()));
    }
    if !column.nullable && column.default.is_none() && any_rows {
        return Err(column_nulls_error(column.name.as_str()));
    }
    let largest: u32 = find_largest_id(&schema.columns);
    let id: u32 = largest.wrapping_add(1);
    let mut schema = schema;
    let ghost before = schema@;
    let ghost declared = column@;
    let mut column = column;
    column.column_id = id;
    let added = column.duplicate();
    let ghost numbered = column@;
    schema.columns.push(column);
    assert(schema@.columns =~= before.columns.push(numbered));
    raise_version(&mut schema);
    Ok(AlterChange::Store { schema, work: RowWork::AddValue(added), refresh: true })
}

/// A description with a column declared anew, under its name or another. It keeps its
/// identifier, and constraints and the key follow its name.
pub open spec fn column_modified(
    table: TableModel,
    column_name: Seq<char>,
    column: ColumnModel,
) -> Result<ChangeModel, Report> {
    match column_position(table.columns, column_name) {
        None => Err(no_column(column_name)),
        Some(place) => if column.name != column_name && has_column(table.columns, column.name) {
            Err(column_exists(column.name))
        } else {
            let previous = table.columns[place as int];
            let is_key = table.primary_key == column_name;
            let declared = ColumnModel {
                column_id: previous.column_id,
                primary_key: previous.primary_key || column.primary_key || is_key,
                nullable: column.nullable && !is_key,
                ..column
            };
            Ok(
                ChangeModel::Store {
                    schema: versioned(
                        TableModel {
                            primary_key: if is_key {
                                column.name
                            } else {
                                table.primary_key
                            },
                            unique_constraints: uniques_renamed(
                                table.unique_constraints,
                                column_name,
                                column.name,
                            ),
                            foreign_keys: keys_renamed(
                                table.foreign_keys,
                                column_name,
                                column.name,
                            ),
                            columns: table.columns.update(place as int, declared),
                            ..table
                        },
                    ),
                    work: WorkModel::Keep,
                    refresh: true,
                },
            )
        },
    }
}

fn modify_column(schema: TableSchema, column_name: &str, column: ColumnSchema) -> (result: Result<
    AlterChange,
    UserError,
>)
    ensures
        seen(result) == column_modified(schema@, column_name@, column@),
{
    let place: usize = match schema.position_of(column_name) {
        Some(place) => place,
        None => {
            return Err(no_column_error(column_name));
        },
    };
    if !same_text(column.name.as_str(), column_name) && schema.find_column(
        column.name.as_str(),
    ).is_some() {
        return Err(column_exists_error(column.name.as_str()));
    }
    let mut schema = schema;
    let ghost before = schema@;
    let mut column = column;
    let ghost asked = column@;
    let new_name = column.name.clone();
    assert(before.columns[place as int] == schema.columns@[place as int]@);
    column.column_id = schema.columns[place].column_id;
    column.primary_key = schema.columns[place].primary_key || column.primary_key;
    if same_text(schema.primary_key.as_str(), column_name) {
        schema.primary_key = new_name.clone();
        column.primary_key = true;
        column.nullable = false;
    }
    schema.unique_constraints = rename_uniques(
        &schema.unique_constraints,
        column_name,
        new_name.as_str(),
    );
    schema.foreign_keys = rename_keys(&schema.foreign_keys, column_name, new_name.as_str());
    let ghost declared = column@;
    schema.columns.set(place, column);
    assert(schema@.columns =~= before.columns.update(place as int, declared));
    raise_version(&mut schema);
    Ok(AlterChange::Store { schema, work: RowWork::Keep, refresh: true })
}

/// The columns but those with a name.
pub open spec fn other_columns(name: Seq<char>) -> spec_fn(ColumnModel) -> bool {
    |column: ColumnModel| column.name != name
}

/// The unique constraints without a column.
pub open spec fn uniques_without(name: Seq<char>) -> spec_fn(UniqueModel) -> bool {
    |constraint: UniqueModel| !constraint.columns.contains(name)
}

/// The check constraints whose text does not hold a name.
pub open spec fn checks_without(name: Seq<char>) -> spec_fn(CheckModel) -> bool {
    |constraint: CheckModel| !contains_text(constraint.expr, name)
}

/// A description without a column, and without the constraints on it.
pub open spec fn column_dropped(table: TableModel, column_name: Seq<char>, if_exists: bool) -> Result<
    ChangeModel,
    Report,
> {
    if table.primary_key == column_name {
        Err(unsupported_report("dropping a primary key column is not supported yet"@))
    } else if !has_column(table.columns, column_name) {
        if if_exists {
            Ok(ChangeModel::Nothing)
        } else {
            Err(no_column(column_name))
        }
    } else {
        Ok(
            ChangeModel::Store {
                schema: versioned(
                    TableModel {
                        columns: kept_where(table.columns, other_columns(column_name)),
                        unique_constraints: kept_where(
                            table.unique_constraints,
                            uniques_without(column_name),
                        ),
                        check_constraints: kept_where(
                            table.check_constraints,
                            checks_without(column_name),
                        ),
                        ..table
                    },
                ),
                work: WorkModel::RemoveValue(column_name),
                refresh: true,
            },
        )
    }
}

fn keep_columns(columns: &Vec<ColumnSchema>, name: &str) -> (kept: Vec<ColumnSchema>)
    ensures
        views(kept@) == kept_where(views(columns@), other_columns(name@)),
{
    let ghost all = views(columns@);
    let mut kept: Vec<ColumnSchema> = Vec::new();
    let mut i: usize = 0;
    assert(views(kept@) =~= kept_where(all.take(0), other_columns(name@)));
    while i < columns.len()
        invariant
            i <= columns@.len(),
            all == views(columns@),
            views(kept@) == kept_where(all.take(i as int), other_columns(name@)),
        decreases columns@.len() - i,
    {
        assert(all.take(i + 1).drop_last() =~= all.take(i as int));
        assert(all.take(i + 1).last() == columns@[i as int]@);
        let ghost done = views(kept@);
        if !same_text(columns[i].name.as_str(), name) {
            let column = columns[i].duplicate();
            let ghost model = column@;
            kept.push(column);
            assert(views(kept@) =~= done.push(model));
        }
        i += 1;
    }
    assert(all.take(i as int) =~= all);
    kept
}

fn keep_uniques(constraints: &Vec<UniqueConstraintSchema>, name: &str) -> (kept: Vec<
    UniqueConstraintSchema,
>)
    ensures
        views(kept@) == kept_where(views(constraints@), uniques_without(name@)),
{
    let ghost all = views(constraints@);
    let mut kept: Vec<UniqueConstraintSchema> = Vec::new();
    let mut i: usize = 0;
    assert(views(kept@) =~= kept_where(all.take(0), uniques_without(name@)));
    while i < constraints.len()
        invariant
            i <= constraints@.len(),
            all == views(constraints@),
            views(kept@) == kept_where(all.take(i as int), uniques_without(name@)),
        decreases constraints@.len() - i,
    {
        assert(all.take(i + 1).drop_last() =~= all.take(i as int));
        assert(all.take(i + 1).last() == constraints@[i as int]@);
        let ghost done = views(kept@);
        if !contains_name(&constraints[i].columns, name) {
            let constraint = constraints[i].duplicate();
            let ghost model = constraint@;
            kept.push(constraint);
            assert(views(kept@) =~= done.push(model));
        }
        i += 1;
    }
    assert(all.take(i as int) =~= all);
    kept
}

fn keep_checks(constraints: &Vec<CheckConstraintSchema>, name: &str) -> (kept: Vec<
    CheckConstraintSchema,
>)
    ensures
        views(kept@) == kept_where(views(constraints@), checks_without(name@)),
{
    let ghost all = views(constraints@);
    let mut kept: Vec<CheckConstraintSchema> = Vec::new();
    let mut i: usize = 0;
    assert(views(kept@) =~= kept_where(all.take(0), checks_without(name@)));
    while i < constraints.len()
        invariant
            i <= constraints@.len(),
            all == views(constraints@),
            views(kept@) == kept_where(all.take(i as int), checks_without(name@)),
        decreases constraints@.len() - i,
    {
        assert(all.take(i + 1).drop_last() =~= all.take(i as int));
        assert(all.take(i + 1).last() == constraints@[i as int]@);
        let ghost done = views(kept@);
        let chars = chars_of(constraints[i].expr.as_str());
        if !has_text(chars.as_slice(), name) {
            let constraint = constraints[i].duplicate();
            let ghost model = constraint@;
            kept.push(constraint);
            assert(views(kept@) =~= done.push(model));
        }
        i += 1;
    }
    assert(all.take(i as int) =~= all);
    kept
}

fn drop_column(schema: TableSchema, column_name: String, if_exists: bool) -> (result: Result<
    AlterChange,
    UserError,
>)
    ensures
        seen(result) == column_dropped(schema@, column_name@, if_exists),
{
    if schema.primary_key == column_name {
        return Err(unsupported("dropping a primary key column is not supported yet"));
    }
    if schema.find_column(column_name.as_str()).is_none() {
        if if_exists {
            return Ok(AlterChange::Nothing);
        }
        return Err(no_column_error(column_name.as_str()));
    }
    let mut schema = schema;
    schema.columns = keep_columns(&schema.columns, column_name.as_str());
    schema.unique_constraints = keep_uniques(&schema.unique_constraints, column_name.as_str());
    schema.check_constraints = keep_checks(&schema.check_constraints, column_name.as_str());
    raise_version(&mut schema);
    Ok(AlterChange::Store { schema, work: RowWork::RemoveValue(column_name), refresh: true })
}

/// A description with another name for a column; constraints and the key follow it.
pub open spec fn column_renamed(table: TableModel, old_name: Seq<char>, new_name: Seq<char>) -> Result<
    ChangeModel,
    Report,
> {
    if has_column(table.columns, new_name) {
        Err(column_exists(new_name))
    } else {
        match column_position(table.columns, old_name) {
            None => Err(no_column(old_name)),
            Some(place) => Ok(
                ChangeModel::Store {
                    schema: versioned(
                        TableModel {
                            primary_key: if table.primary_key == old_name {
                                new_name
                            } else {
                                table.primary_key
                            },
                            unique_constraints: uniques_renamed(
                                table.unique_constraints,
                                old_name,
                                new_name,
                            ),
                            foreign_keys: keys_renamed(table.foreign_keys, old_name, new_name),
                            columns: table.columns.update(
                                place as int,
                                ColumnModel { name: new_name, ..table.columns[place as int] },
                            ),
                            ..table
                        },
                    ),
                    work: WorkModel::Keep,
                    refresh: true,
                },
            ),
        }
    }
}

fn rename_column(schema: TableSchema, old_name: &str, new_name: &str) -> (result: Result<
    AlterChange,
    UserError,
>)
    ensures
        seen(result) == column_renamed(schema@, old_name@, new_name@),
{
    if schema.find_column(new_name).is_some() {
        return Err(column_exists_error(new_name));
    }
    let place: usize = match schema.position_of(old_name) {
        Some(place) => place,
        None => {
            return Err(no_column_error(old_name));
        },
    };
    let mut schema = schema;
    let ghost before = schema@;
    let mut column = schema.columns[place].duplicate();
    assert(before.columns[place as int] == column@);
    column.name = new_name.to_string();
    let ghost declared = column@;
    schema.columns.set(place, column);
    assert(schema@.columns =~= before.columns.update(place as int, declared));
    if same_text(schema.primary_key.as_str(), old_name) {
        schema.primary_key = new_name.to_string();
    }
    schema.unique_constraints = rename_uniques(&schema.unique_constraints, old_name, new_name);
    schema.foreign_keys = rename_keys(&schema.foreign_keys, old_name, new_name);
    raise_version(&mut schema);
    Ok(AlterChange::Store { schema, work: RowWork::Keep, refresh: true })
}

/// A description with another default for a column.
pub open spec fn default_set(
    table: TableModel,
    column_name: Seq<char>,
    default: Option<Seq<char>>,
) -> Result<ChangeModel, Report> {
    match column_position(table.columns, column_name) {
        None => Err(no_column(column_name)),
        Some(place) => Ok(
            ChangeModel::Store {
                schema: versioned(
                    TableModel {
                        columns: table.columns.update(
                            place as int,
                            ColumnModel { default, ..table.columns[place as int] },
                        ),
                        ..table
                    },
                ),
                work: WorkModel::Keep,
                refresh: false,
            },
        ),
    }
}

fn set_default(schema: TableSchema, column_name: &str, default: Option<String>) -> (result: Result<
    AlterChange,
    UserError,
>)
    ensures
        seen(result) == default_set(schema@, column_name@, option_view(default)),
{
    let place: usize = match schema.position_of(column_name) {
        Some(place) => place,
        None => {
            return Err(no_column_error(column_name));
        },
    };
    let mut schema = schema;
    let ghost before = schema@;
    let mut column = schema.columns[place].duplicate();
    assert(before.columns[place as int] == column@);
    column.default = default;
    let ghost declared = column@;
    schema.columns.set(place, column);
    assert(schema@.columns =~= before.columns.update(place as int, declared));
    raise_version(&mut schema);
    Ok(AlterChange::Store { schema, work: RowWork::Keep, refresh: false })
}

/// Whether a column is null in some row.
pub open spec fn null_somewhere(rows: Seq<EntryModel>, column_name: Seq<char>) -> bool {
    exists|i: int|
        0 <= i < rows.len() && field((#[trigger] rows[i]).row, column_name) == Datum::Null
}

/// Whether a column is null in some row.
pub fn any_null_in_column(rows: &Vec<RowEntry>, column_name: &str) -> (answer: bool)
    ensures
        answer == null_somewhere(views(rows@), column_name@),
{
    let mut i: usize = 0;
    while i < rows.len()
        invariant
            i <= rows@.len(),
            forall|k: int|
                0 <= k < i ==> field((#[trigger] views(rows@)[k]).row, column_name@)
                    != Datum::Null,
        decreases rows@.len() - i,
    {
        assert(views(rows@)[i as int] == rows@[i as int]@);
        if rows[i].row.value_or_null(column_name).is_null() {
            return true;
        }
        i += 1;
    }
    false
}

/// A description with a column that may be null, or that may not.
pub open spec fn nullability_set(
    table: TableModel,
    column_name: Seq<char>,
    nullable: bool,
    rows: Seq<EntryModel>,
) -> Result<ChangeModel, Report> {
    match column_position(table.columns, column_name) {
        None => Err(no_column(column_name)),
        Some(place) => if !nullable && null_somewhere(rows, column_name) {
            Err(column_has_nulls(column_name))
        } else {
            Ok(
                ChangeModel::Store {
                    schema: versioned(
                        TableModel {
                            columns: table.columns.update(
                                place as int,
                                ColumnModel { nullable, ..table.columns[place as int] },
                            ),
                            ..table
                        },
                    ),
                    work: WorkModel::Keep,
                    refresh: false,
                },
            )
        },
    }
}

fn set_nullability(
    schema: TableSchema,
    column_name: &str,
    nullable: bool,
    rows: &Vec<RowEntry>,
) -> (result: Result<AlterChange, UserError>)
    ensures
        seen(result) == nullability_set(schema@, column_name@, nullable, views(rows@)),
{
    let place: usize = match schema.position_of(column_name) {
        Some(place) => place,
        None => {
            return Err(no_column_error(column_name));
        },
    };
    if !nullable && any_null_in_column(rows, column_name) {
        return Err(column_nulls_error(column_name));
    }
    let mut schema = schema;
    let ghost before = schema@;
    let mut column = schema.columns[place].duplicate();
    assert(before.columns[place as int] == column@);
    column.nullable = nullable;
    let ghost declared = column@;
    schema.columns.set(place, column);
    assert(schema@.columns =~= before.columns.update(place as int, declared));
    raise_version(&mut schema);
    Ok(AlterChange::Store { schema, work: RowWork::Keep, refresh: false })
}

/// A description stored as it is, with the version that follows.
pub open spec fn stored_change(table: TableModel) -> ChangeModel {
    ChangeModel::Store { schema: versioned(table), work: WorkModel::Keep, refresh: false }
}

/// The foreign keys but those with a name, whatever its case.
pub open spec fn keys_without(name: Seq<char>) -> spec_fn(ForeignKeyModel) -> bool {
    |key: ForeignKeyModel| lower(key.name) != lower(name)
}

/// A description without a foreign key.
pub open spec fn foreign_key_dropped(table: TableModel, name: Seq<char>, if_exists: bool) -> Result<
    ChangeModel,
    Report,
> {
    let kept = kept_where(table.foreign_keys, keys_without(name));
    if kept.len() == table.foreign_keys.len() {
        if if_exists {
            Ok(ChangeModel::Nothing)
        } else {
            Err(report("42704"@, "foreign key '"@ + name + "' does not exist"@))
        }
    } else {
        Ok(stored_change(TableModel { foreign_keys: kept, ..table }))
    }
}

fn drop_foreign_key(schema: TableSchema, name: &str, if_exists: bool) -> (result: Result<
    AlterChange,
    UserError,
>)
    ensures
        seen(result) == foreign_key_dropped(schema@, name@, if_exists),
{
    let ghost all = schema@.foreign_keys;
    let mut kept: Vec<ForeignKeyConstraintSchema> = Vec::new();
    let mut i: usize = 0;
    assert(views(kept@) =~= kept_where(all.take(0), keys_without(name@)));
    while i < schema.foreign_keys.len()
        invariant
            i <= schema.foreign_keys@.len(),
            all == views(schema.foreign_keys@),
            views(kept@) == kept_where(all.take(i as int), keys_without(name@)),
        decreases schema.foreign_keys@.len() - i,
    {
        assert(all.take(i + 1).drop_last() =~= all.take(i as int));
        assert(all.take(i + 1).last() == schema.foreign_keys@[i as int]@);
        let ghost done = views(kept@);
        if !same_but_for_case(schema.foreign_keys[i].name.as_str(), name) {
            let key = schema.foreign_keys[i].duplicate();
            let ghost model = key@;
            kept.push(key);
            assert(views(kept@) =~= done.push(model));
        }
        i += 1;
    }
    assert(all.take(i as int) =~= all);
    assert(views(kept@).len() == kept@.len());
    if kept.len() == schema.foreign_keys.len() {
        if if_exists {
            return Ok(AlterChange::Nothing);
        }
        return Err(
            user_error_text("42704", three_texts("foreign key '", name, "' does not exist")),
        );
    }
    let mut schema = schema;
    schema.foreign_keys = kept;
    raise_version(&mut schema);
    Ok(AlterChange::Store { schema, work: RowWork::Keep, refresh: false })
}

/// What a change of a description comes to, with the rows of the table; `check` says what a
/// new check constraint comes to over all of them.
pub open spec fn altered(
    table: TableModel,
    operation: AlterModel,
    rows: Seq<EntryModel>,
    check: VerdictModel,
) -> Result<ChangeModel, Report> {
    match operation {
        AlterModel::AddColumn { column, if_not_exists } => column_added(
            table,
            column,
            if_not_exists,
            rows.len() > 0,
        ),
        AlterModel::ModifyColumn { column_name, column } => column_modified(
            table,
            column_name,
            column,
        ),
        AlterModel::DropColumn { column_name, if_exists } => column_dropped(
            table,
            column_name,
            if_exists,
        ),
        AlterModel::RenameColumn { old_name, new_name } => column_renamed(
            table,
            old_name,
            new_name,
        ),
        AlterModel::RenameTable { new_name } => Ok(ChangeModel::RenameTable { new_name }),
        AlterModel::SetDefault { column_name, default } => default_set(
            table,
            column_name,
            default,
        ),
        AlterModel::SetNotNull { column_name, nullable } => nullability_set(
            table,
            column_name,
            nullable,
            rows,
        ),
        AlterModel::AddCheck { constraint } => match check {
            VerdictModel::Malformed(error) => Err(error),
            VerdictModel::Fails => Err(
                report("23514"@, "check constraint '"@ + constraint.name + "' is violated"@),
            ),
            VerdictModel::Holds => Ok(
                stored_change(
                    TableModel {
                        check_constraints: table.check_constraints.push(constraint),
                        ..table
                    },
                ),
            ),
        },
        AlterModel::AddUnique { constraint } => if breaks_unique(
            constraint.columns,
            rows,
            None,
            None,
        ) {
            Err(
                report(
                    "23505"@,
                    "duplicate key value violates unique constraint '"@ + constraint.name + "'"@,
                ),
            )
        } else {
            Ok(
                stored_change(
                    TableModel {
                        unique_constraints: table.unique_constraints.push(constraint),
                        ..table
                    },
                ),
            )
        },
        AlterModel::AddForeignKey { constraint } => Ok(
            stored_change(
                TableModel { foreign_keys: table.foreign_keys.push(constraint), ..table },
            ),
        ),
        AlterModel::DropForeignKey { name, if_exists } => foreign_key_dropped(
            table,
            name,
            if_exists,
        ),
        AlterModel::AddIndex { index_name, column_names, unique, if_not_exists } => Ok(
            ChangeModel::CreateIndex { index_name, column_names, unique, if_not_exists },
        ),
        AlterModel::DropIndex { index_name, if_exists } => Ok(
            ChangeModel::DropIndex { index_name, if_exists },
        ),
        AlterModel::RenameIndex { old_name, new_name } => Ok(
            ChangeModel::RenameIndex { old_name, new_name },
        ),
        AlterModel::SetAutoIncrement { value } => match auto_increment_column(table.columns) {
            None => Err(
                report("42809"@, "AUTO_INCREMENT requires an auto_increment column"@),
            ),
            Some(column) => match column.default {
                Some(text) => match nextval_name(text) {
                    Some(sequence) => Ok(ChangeModel::AdvanceSequence { sequence, value }),
                    None => Ok(ChangeModel::Nothing),
                },
                None => Ok(ChangeModel::Nothing),
            },
        },
    }
}

/// What a change of a description comes to.
pub fn alter_table(
    schema: TableSchema,
    operation: TableAlterOperation,
    rows: &Vec<RowEntry>,
    check: CheckVerdict,
) -> (result: Result<AlterChange, UserError>)
    ensures
        seen(result) == altered(schema@, operation@, views(rows@), check@),
{
    match operation {
        TableAlterOperation::AddColumn { column, if_not_exists } => add_column(
            schema,
            column,
            if_not_exists,
            rows.len() > 0,
        ),
        TableAlterOperation::ModifyColumn { column_name, column } => modify_column(
            schema,
            column_name.as_str(),
            column,
        ),
        TableAlterOperation::DropColumn { column_name, if_exists } => drop_column(
            schema,
            column_name,
            if_exists,
        ),
        TableAlterOperation::RenameColumn { old_name, new_name } => rename_column(
            schema,
            old_name.as_str(),
            new_name.as_str(),
        ),
        TableAlterOperation::RenameTable { new_name } => Ok(AlterChange::RenameTable { new_name }),
        TableAlterOperation::SetDefault { column_name, default } => set_default(
            schema,
            column_name.as_str(),
            default,
        ),
        TableAlterOperation::SetNotNull { column_name, nullable } => set_nullability(
            schema,
            column_name.as_str(),
            nullable,
            rows,
        ),
        TableAlterOperation::AddCheck { constraint } => match check {
            CheckVerdict::Malformed(error) => Err(error),
            CheckVerdict::Fails => Err(
                user_error_text(
                    "23514",
                    three_texts("check constraint '", constraint.name.as_str(), "' is violated"),
                ),
            ),
            CheckVerdict::Holds => {
                let mut schema = schema;
                let ghost before = schema@;
                let ghost added = constraint@;
                schema.check_constraints.push(constraint);
                assert(schema@.check_constraints =~= before.check_constraints.push(added));
                raise_version(&mut schema);
                Ok(AlterChange::Store { schema, work: RowWork::Keep, refresh: false })
            },
        },
        TableAlterOperation::AddUnique { constraint } => {
            let nobody: Option<ColumnValue> = None;
            let nothing: Option<RowMap> = None;
            match validate_unique_constraint(&constraint, rows, &nobody, &nothing) {
                Err(error) => Err(error),
                Ok(_) => {
                    let mut schema = schema;
                    let ghost before = schema@;
                    let ghost added = constraint@;
                    schema.unique_constraints.push(constraint);
                    assert(schema@.unique_constraints =~= before.unique_constraints.push(added));
                    raise_version(&mut schema);
                    Ok(AlterChange::Store { schema, work: RowWork::Keep, refresh: false })
                },
            }
        },
        TableAlterOperation::AddForeignKey { constraint } => {
            let mut schema = schema;
            let ghost before = schema@;
            let ghost added = constraint@;
            schema.foreign_keys.push(constraint);
            assert(schema@.foreign_keys =~= before.foreign_keys.push(added));
            raise_version(&mut schema);
            Ok(AlterChange::Store { schema, work: RowWork::Keep, refresh: false })
        },
        TableAlterOperation::DropForeignKey { name, if_exists } => drop_foreign_key(
            schema,
            name.as_str(),
            if_exists,
        ),
        TableAlterOperation::AddIndex { index_name, column_names, unique, if_not_exists } => Ok(
            AlterChange::CreateIndex { index_name, column_names, unique, if_not_exists },
        ),
        TableAlterOperation::DropIndex { index_name, if_exists } => Ok(
            AlterChange::DropIndex { index_name, if_exists },
        ),
        TableAlterOperation::RenameIndex { old_name, new_name } => Ok(
            AlterChange::RenameIndex { old_name, new_name },
        ),
        TableAlterOperation::SetAutoIncrement { value } => match mysql_auto_increment_column(
            &schema,
        ) {
            None => Err(user_error("42809", "AUTO_INCREMENT requires an auto_increment column")),
            Some(column) => match &column.default {
                Some(text) => match nextval_sequence_name(text.as_str()) {
                    Some(sequence) => Ok(AlterChange::AdvanceSequence { sequence, value }),
                    None => Ok(AlterChange::Nothing),
                },
                None => Ok(AlterChange::Nothing),
            },
        },
    }
}

/// A description that changes gets the version that follows; its table keeps its identity.
pub proof fn law_change_raises_version(
    table: TableModel,
    operation: AlterModel,
    rows: Seq<EntryModel>,
    check: VerdictModel,
)
    requires
        altered(table, operation, rows, check) matches Ok(change) && change is Store,
    ensures
        altered(table, operation, rows, check)->Ok_0->schema.schema_version == next_version(
            table.schema_version,
        ),
        altered(table, operation, rows, check)->Ok_0->schema.table_id == table.table_id,
        altered(table, operation, rows, check)->Ok_0->schema.table_epoch == table.table_epoch,
        altered(table, operation, rows, check)->Ok_0->schema.table_name == table.table_name,
{
}

/// A new column has an identifier above those of the others, as long as there is one.
pub proof fn law_new_column_has_a_new_identifier(columns: Seq<ColumnModel>, i: int)
    requires
        0 <= i < columns.len(),
        largest_column_id(columns) < u32::MAX,
    ensures
        columns[i].column_id < next_column_id(columns),
{
    lemma_largest(columns, i);
}

proof fn lemma_largest(columns: Seq<ColumnModel>, i: int)
    requires
        0 <= i < columns.len(),
    ensures
        columns[i].column_id <= largest_column_id(columns),
    decreases columns.len(),
{
    if i < columns.len() - 1 {
        lemma_largest(columns.drop_last(), i);
        assert(columns.drop_last()[i] == columns[i]);
    }
}

/// Once a column is dropped, no column has its name and no unique constraint is on it.
pub proof fn law_dropped_column_is_gone(table: TableModel, column_name: Seq<char>, if_exists: bool)
    requires
        column_dropped(table, column_name, if_exists) matches Ok(change) && change is Store,
    ensures
        !has_column(
            column_dropped(table, column_name, if_exists)->Ok_0->schema.columns,
            column_name,
        ),
        forall|i: int|
            0 <= i < column_dropped(
                table,
                column_name,
                if_exists,
            )->Ok_0->schema.unique_constraints.len() ==> !(#[trigger] column_dropped(
                table,
                column_name,
                if_exists,
            )->Ok_0->schema.unique_constraints[i]).columns.contains(column_name),
{
    let after = column_dropped(table, column_name, if_exists)->Ok_0->schema;
    lemma_kept_where(table.columns, other_columns(column_name));
    lemma_kept_where(table.unique_constraints, uniques_without(column_name));
    assert forall|i: int| 0 <= i < after.columns.len() implies (#[trigger] after.columns[i]).name
        != column_name by {
        assert(other_columns(column_name)(after.columns[i]));
    }
    assert forall|i: int| 0 <= i < after.unique_constraints.len() implies !(
    #[trigger] after.unique_constraints[i]).columns.contains(column_name) by {
        assert(uniques_without(column_name)(after.unique_constraints[i]));
    }
    lemma_column_position(after.columns, column_name);
}

/// Giving a column another name and then its own again leaves the columns, the key, the unique
/// constraints and the foreign keys as they were, where nothing had the other name.
pub proof fn law_renaming_back_restores(
    table: TableModel,
    old_name: Seq<char>,
    new_name: Seq<char>,
)
    requires
        column_renamed(table, old_name, new_name) is Ok,
        table.primary_key != new_name,
        forall|i: int|
            0 <= i < table.unique_constraints.len() ==> !(
            #[trigger] table.unique_constraints[i]).columns.contains(new_name),
        forall|i: int|
            0 <= i < table.foreign_keys.len() ==> !(
            #[trigger] table.foreign_keys[i]).columns.contains(new_name),
        forall|i: int, j: int|
            0 <= i < table.columns.len() && 0 <= j < table.columns.len() && (
            #[trigger] table.columns[i]).name == (#[trigger] table.columns[j]).name ==> i == j,
    ensures
        ({
            let there = column_renamed(table, old_name, new_name)->Ok_0->schema;
            let back = column_renamed(there, new_name, old_name);
            &&& back matches Ok(change) && change is Store
            &&& back->Ok_0->schema.columns == table.columns
            &&& back->Ok_0->schema.primary_key == table.primary_key
            &&& back->Ok_0->schema.unique_constraints == table.unique_constraints
            &&& back->Ok_0->schema.foreign_keys == table.foreign_keys
        }),
{
    let there = column_renamed(table, old_name, new_name)->Ok_0->schema;
    lemma_column_position(table.columns, old_name);
    lemma_column_position(table.columns, new_name);
    let place = column_position(table.columns, old_name)->0 as int;
    assert(there.columns[place].name == new_name);
    lemma_column_position(there.columns, new_name);
    lemma_column_position(there.columns, old_name);
    assert forall|i: int| 0 <= i < there.columns.len() implies (#[trigger] there.columns[i]).name
        != old_name by {
        if i != place {
            assert(there.columns[i] == table.columns[i]);
            assert(table.columns[place].name == old_name);
        }
    }
    assert(!has_column(there.columns, old_name));
    let found = column_position(there.columns, new_name)->0 as int;
    assert(found == place) by {
        if found != place {
            assert(there.columns[found] == table.columns[found]);
        }
    }
    let back = column_renamed(there, new_name, old_name)->Ok_0->schema;
    assert(back.columns =~= table.columns);
    assert(back.unique_constraints =~= table.unique_constraints) by {
        assert forall|i: int| 0 <= i < table.unique_constraints.len() implies
            #[trigger] back.unique_constraints[i] == table.unique_constraints[i] by {
            let names = table.unique_constraints[i].columns;
            assert forall|k: int| 0 <= k < names.len() implies #[trigger] names[k]
                != new_name by {
                assert(names.contains(names[k]));
            }
            assert(renamed(renamed(names, old_name, new_name), new_name, old_name) =~= names);
        }
    }
    assert(back.foreign_keys =~= table.foreign_keys) by {
        assert forall|i: int| 0 <= i < table.foreign_keys.len() implies
            #[trigger] back.foreign_keys[i] == table.foreign_keys[i] by {
            let names = table.foreign_keys[i].columns;
            assert forall|k: int| 0 <= k < names.len() implies #[trigger] names[k]
                != new_name by {
                assert(names.contains(names[k]));
            }
            assert(renamed(renamed(names, old_name, new_name), new_name, old_name) =~= names);
        }
    }
}

} // verus!
