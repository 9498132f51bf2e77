//! What changes of tables are for: what is declared is there afterwards, what is dropped is not,
//! rows that would break a new rule keep it away, and nothing else changes.
use vstd::prelude::*;

use crate::error::Report;
use crate::lists::lemma_kept_where;
use crate::row::field;
use crate::schema::{
    column_position, has_column, CheckModel, ColumnModel, ForeignKeyModel, TableModel, UniqueModel,
};
use crate::server::alter::{
    altered, checks_without, keys_without, other_columns, uniques_without, ChangeModel, WorkModel,
};
use crate::server::ast::{ColumnOptionModel, DefModel, OptionModel};
use crate::server::ddl_columns::{column_described, options_taken, TraitsModel};
use crate::server::plan::AlterModel;
use crate::server::rows::{breaks_unique, counts, fields, EntryModel, VerdictModel};
use crate::server::sequences::{nextval_default, serial_name};
use crate::text::{contains_text, lower};
use crate::types::{all_alike, Datum};

verus! {

/// Whether two descriptions agree but for their columns and the version.
pub open spec fn same_but_columns(a: TableModel, b: TableModel) -> bool {
    a == (TableModel { columns: a.columns, schema_version: a.schema_version, ..b })
}

/// A new column comes behind those that are there, as it is declared, and each row gets a value
/// for it. One that is there already is refused, or passed over; so is one that may not be null
/// and has no value for rows that are there.
pub proof fn law_added_columns_come_last(
    table: TableModel,
    column: ColumnModel,
    if_not_exists: bool,
    rows: Seq<EntryModel>,
    check: VerdictModel,
)
    ensures
        match altered(table, AlterModel::AddColumn { column, if_not_exists }, rows, check) {
            Ok(ChangeModel::Store { schema, work, refresh }) => {
                &&& !has_column(table.columns, column.name)
                &&& column.nullable || column.default is Some || rows.len() == 0
                &&& same_but_columns(schema, table)
                &&& schema.columns.len() == table.columns.len() + 1
                &&& schema.columns.drop_last() == table.columns
                &&& schema.columns.last() == (ColumnModel {
                    column_id: schema.columns.last().column_id,
                    ..column
                })
                &&& work == WorkModel::AddValue(schema.columns.last())
            },
            Ok(change) => change is Nothing && if_not_exists && has_column(
                table.columns,
                column.name,
            ),
            Err(e) => {
                ||| has_column(table.columns, column.name) && !if_not_exists && e.code == "42701"@
                ||| !has_column(table.columns, column.name) && !column.nullable
                    && column.default is None && rows.len() > 0 && e.code == "23502"@
            },
        },
{
    if let Ok(ChangeModel::Store { schema, work, refresh }) = altered(
        table,
        AlterModel::AddColumn { column, if_not_exists },
        rows,
        check,
    ) {
        assert(schema.columns.drop_last() =~= table.columns);
    }
}

/// A column that is declared anew has its new name, type and other traits, keeps its identifier
/// and its place, and stays the key where it was; the other columns stay as they were, and the
/// rows too.
pub proof fn law_modified_columns_are_as_declared(
    table: TableModel,
    column_name: Seq<char>,
    column: ColumnModel,
    rows: Seq<EntryModel>,
    check: VerdictModel,
)
    ensures
        match altered(table, AlterModel::ModifyColumn { column_name, column }, rows, check) {
            Ok(change) => change matches ChangeModel::Store { schema, work, .. } && work is Keep && {
                &&& column_position(table.columns, column_name) matches Some(place) && {
                    let new = schema.columns[place as int];
                    let old = table.columns[place as int];
                    &&& schema.columns.len() == table.columns.len()
                    &&& forall|i: int|
                        0 <= i < table.columns.len() && i != place ==> #[trigger] schema.columns[i]
                            == table.columns[i]
                    &&& new.name == column.name && new.data_type == column.data_type
                    &&& new.default == column.default && new.on_update == column.on_update
                    &&& new.character_set == column.character_set && new.collation
                        == column.collation
                    &&& new.column_id == old.column_id
                    &&& old.primary_key || column.primary_key ==> new.primary_key
                    &&& table.primary_key == column_name ==> schema.primary_key == column.name
                        && new.primary_key && !new.nullable
                    &&& table.primary_key != column_name ==> schema.primary_key == table.primary_key
                        && new.nullable == column.nullable
                }
                &&& column.name == column_name || !has_column(table.columns, column.name)
                &&& schema.check_constraints == table.check_constraints
                &&& schema.unique_constraints.len() == table.unique_constraints.len()
                &&& schema.foreign_keys.len() == table.foreign_keys.len()
            },
            Err(e) => {
                ||| !has_column(table.columns, column_name) && e.code == "42703"@
                ||| column.name != column_name && has_column(table.columns, column.name) && e.code
                    == "42701"@
            },
        },
{
    lemma_position(table.columns, column_name);
}

proof fn lemma_position(columns: Seq<ColumnModel>, name: Seq<char>)
    ensures
        has_column(columns, name) <==> column_position(columns, name) is Some,
        column_position(columns, name) matches Some(place) ==> place < columns.len()
            && columns[place as int].name == name,
    decreases columns.len(),
{
    if columns.len() > 0 {
        let rest = columns.skip(1);
        lemma_position(rest, name);
        if columns[0].name != name {
            if has_column(columns, name) {
                let i = choose|i: int| 0 <= i < columns.len() && (#[trigger] columns[i]).name == name;
                assert(rest[i - 1] == columns[i]);
            }
            if has_column(rest, name) {
                let i = choose|i: int| 0 <= i < rest.len() && (#[trigger] rest[i]).name == name;
                assert(columns[i + 1] == rest[i]);
            }
        } else {
            assert(has_column(columns, name));
        }
    }
}

/// A column that is dropped goes, with the constraints on it and the values in the rows, and no
/// other column or constraint goes; the primary key cannot be dropped.
pub proof fn law_dropped_columns_go_alone(
    table: TableModel,
    column_name: Seq<char>,
    if_exists: bool,
    rows: Seq<EntryModel>,
    check: VerdictModel,
)
    ensures
        match altered(table, AlterModel::DropColumn { column_name, if_exists }, rows, check) {
            Ok(ChangeModel::Store { schema, work, .. }) => {
                &&& column_name != table.primary_key && has_column(table.columns, column_name)
                &&& work == WorkModel::RemoveValue(column_name)
                &&& forall|column: ColumnModel| #[trigger]
                    schema.columns.contains(column) <==> table.columns.contains(column)
                        && column.name != column_name
                &&& forall|unique: UniqueModel| #[trigger]
                    schema.unique_constraints.contains(unique)
                        <==> table.unique_constraints.contains(unique) && !unique.columns.contains(
                        column_name,
                    )
                &&& forall|one: CheckModel| #[trigger]
                    schema.check_constraints.contains(one) <==> table.check_constraints.contains(
                        one,
                    ) && !contains_text(one.expr, column_name)
                &&& schema.foreign_keys == table.foreign_keys
                &&& schema.primary_key == table.primary_key
            },
            Ok(change) => change is Nothing && if_exists && !has_column(table.columns, column_name)
                && column_name != table.primary_key,
            Err(e) => {
                ||| column_name == table.primary_key && e.code == "0A000"@
                ||| !has_column(table.columns, column_name) && !if_exists && e.code == "42703"@
            },
        },
{
    lemma_kept(table.columns, other_columns(column_name));
    lemma_kept(table.unique_constraints, uniques_without(column_name));
    lemma_kept(table.check_constraints, checks_without(column_name));
}

proof fn lemma_kept<V>(items: Seq<V>, keep: spec_fn(V) -> bool)
    ensures
        forall|item: V| #[trigger]
            crate::lists::kept_where(items, keep).contains(item) <==> items.contains(item) && keep(
                item,
            ),
{
    lemma_kept_where(items, keep);
    let kept = crate::lists::kept_where(items, keep);
    assert forall|item: V| #[trigger]
        kept.contains(item) <==> items.contains(item) && keep(item) by {
        if kept.contains(item) {
            let i = choose|i: int| 0 <= i < kept.len() && kept[i] == item;
            assert(keep(kept[i]));
        }
        if items.contains(item) && keep(item) {
            let i = choose|i: int| 0 <= i < items.len() && items[i] == item;
            assert(keep(items[i]));
        }
    }
}

/// A column that gets another name is the same but for that; the key and the constraints on it
/// follow, and a name that is taken is refused.
pub proof fn law_renamed_columns_stay_the_same(
    table: TableModel,
    old_name: Seq<char>,
    new_name: Seq<char>,
    rows: Seq<EntryModel>,
    check: VerdictModel,
    u: int,
    c: int,
)
    ensures
        match altered(table, AlterModel::RenameColumn { old_name, new_name }, rows, check) {
            Ok(change) => change matches ChangeModel::Store { schema, work, .. } && work is Keep && {
                &&& !has_column(table.columns, new_name)
                &&& column_position(table.columns, old_name) matches Some(place)
                    && schema.columns.len() == table.columns.len() && (forall|i: int|
                    0 <= i < table.columns.len() && i != place ==> #[trigger] schema.columns[i]
                        == table.columns[i]) && schema.columns[place as int] == (ColumnModel {
                    name: new_name,
                    ..table.columns[place as int]
                })
                &&& schema.primary_key == if table.primary_key == old_name {
                    new_name
                } else {
                    table.primary_key
                }
                &&& schema.check_constraints == table.check_constraints
                &&& schema.unique_constraints.len() == table.unique_constraints.len()
                &&& 0 <= u < table.unique_constraints.len() ==> {
                    &&& schema.unique_constraints[u].name == table.unique_constraints[u].name
                    &&& schema.unique_constraints[u].primary_key
                        == table.unique_constraints[u].primary_key
                    &&& schema.unique_constraints[u].columns.len()
                        == table.unique_constraints[u].columns.len()
                    &&& 0 <= c < table.unique_constraints[u].columns.len()
                        ==> schema.unique_constraints[u].columns[c] == if table.unique_constraints[u].columns[c]
                        == old_name {
                        new_name
                    } else {
                        table.unique_constraints[u].columns[c]
                    }
                }
                &&& schema.foreign_keys.len() == table.foreign_keys.len()
                &&& 0 <= u < table.foreign_keys.len() ==> {
                    &&& schema.foreign_keys[u].name == table.foreign_keys[u].name
                    &&& schema.foreign_keys[u].foreign_table == table.foreign_keys[u].foreign_table
                    &&& schema.foreign_keys[u].referred_columns
                        == table.foreign_keys[u].referred_columns
                    &&& 0 <= c < table.foreign_keys[u].columns.len()
                        ==> schema.foreign_keys[u].columns[c] == if table.foreign_keys[u].columns[c]
                        == old_name {
                        new_name
                    } else {
                        table.foreign_keys[u].columns[c]
                    }
                }
            },
            Err(e) => {
                ||| has_column(table.columns, new_name) && e.code == "42701"@
                ||| !has_column(table.columns, old_name) && e.code == "42703"@
            },
        },
{
    lemma_position(table.columns, old_name);
}

/// A column gets the default that is declared, or none, and may be null or not as declared; it
/// cannot be kept from null while it is null in some row. Nothing else of the table changes.
pub proof fn law_columns_get_their_defaults_and_nulls(
    table: TableModel,
    column_name: Seq<char>,
    default: Option<Seq<char>>,
    nullable: bool,
    rows: Seq<EntryModel>,
    check: VerdictModel,
)
    ensures
        match altered(table, AlterModel::SetDefault { column_name, default }, rows, check) {
            Ok(change) => change matches ChangeModel::Store { schema, work, .. } && work is Keep
                && same_but_columns(schema, table) && (column_position(
                table.columns,
                column_name,
            ) matches Some(place) && schema.columns == table.columns.update(
                place as int,
                ColumnModel { default, ..table.columns[place as int] },
            )),
            Err(e) => !has_column(table.columns, column_name) && e.code == "42703"@,
        },
        match altered(table, AlterModel::SetNotNull { column_name, nullable }, rows, check) {
            Ok(change) => change matches ChangeModel::Store { schema, work, .. } && work is Keep
                && same_but_columns(schema, table) && (column_position(
                table.columns,
                column_name,
            ) matches Some(place) && schema.columns == table.columns.update(
                place as int,
                ColumnModel { nullable, ..table.columns[place as int] },
            )) && (!nullable ==> forall|i: int|
                0 <= i < rows.len() ==> field((#[trigger] rows[i]).row, column_name)
                    != Datum::Null),
            Err(e) => {
                ||| !has_column(table.columns, column_name) && e.code == "42703"@
                ||| !nullable && e.code == "23502"@ && exists|i: int|
                    0 <= i < rows.len() && field((#[trigger] rows[i]).row, column_name)
                        == Datum::Null
            },
        },
{
    lemma_position(table.columns, column_name);
}

/// A check is added just where it holds of all rows, a unique constraint just where no two rows
/// have the same values; the constraints that are there stay.
pub proof fn law_new_constraints_hold_already(
    table: TableModel,
    one: CheckModel,
    unique: UniqueModel,
    foreign: ForeignKeyModel,
    rows: Seq<EntryModel>,
    check: VerdictModel,
)
    ensures
        altered(table, AlterModel::AddCheck { constraint: one }, rows, check) is Ok
            <==> check is Holds,
        altered(table, AlterModel::AddCheck { constraint: one }, rows, check) matches Ok(change)
            ==> (change matches ChangeModel::Store { schema, work, .. } && work is Keep && schema
            == (TableModel {
            check_constraints: table.check_constraints.push(one),
            schema_version: schema.schema_version,
            ..table
        })),
        altered(table, AlterModel::AddUnique { constraint: unique }, rows, check) is Ok
            <==> !breaks_unique(unique.columns, rows, None, None),
        altered(
            table,
            AlterModel::AddUnique { constraint: unique },
            rows,
            check,
        ) matches Ok(change) ==> (change matches ChangeModel::Store { schema, work, .. }
            && work is Keep && schema == (TableModel {
            unique_constraints: table.unique_constraints.push(unique),
            schema_version: schema.schema_version,
            ..table
        })),
        altered(
            table,
            AlterModel::AddForeignKey { constraint: foreign },
            rows,
            check,
        ) matches Ok(change) && (change matches ChangeModel::Store { schema, work, .. }
            && work is Keep && schema == (TableModel {
            foreign_keys: table.foreign_keys.push(foreign),
            schema_version: schema.schema_version,
            ..table
        })),
{
}

/// Rows with the same values keep a unique constraint away, unless one of the values is null.
pub proof fn law_equal_rows_refuse_a_unique_constraint(
    table: TableModel,
    unique: UniqueModel,
    rows: Seq<EntryModel>,
    check: VerdictModel,
    i: int,
    j: int,
)
    requires
        0 <= i < j < rows.len(),
        !fields(rows[i].row, unique.columns).contains(Datum::Null),
        !fields(rows[j].row, unique.columns).contains(Datum::Null),
        all_alike(fields(rows[i].row, unique.columns), fields(rows[j].row, unique.columns)),
    ensures
        altered(table, AlterModel::AddUnique { constraint: unique }, rows, check) is Err,
{
    assert(counts(rows[i], unique.columns, None));
    assert(counts(rows[j], unique.columns, None));
}

/// A foreign key that is dropped goes, by its name in any case, and no other does.
pub proof fn law_dropped_foreign_keys_go_alone(
    table: TableModel,
    name: Seq<char>,
    if_exists: bool,
    rows: Seq<EntryModel>,
    check: VerdictModel,
)
    ensures
        altered(
            table,
            AlterModel::DropForeignKey { name, if_exists },
            rows,
            check,
        ) matches Ok(ChangeModel::Store { schema, .. }) ==> {
            &&& forall|key: ForeignKeyModel| #[trigger]
                schema.foreign_keys.contains(key) <==> table.foreign_keys.contains(key) && lower(
                    key.name,
                ) != lower(name)
            &&& schema.columns == table.columns && schema.primary_key == table.primary_key
            &&& schema.unique_constraints == table.unique_constraints
            &&& schema.check_constraints == table.check_constraints
        },
{
    lemma_kept(table.foreign_keys, keys_without(name));
}

/// Changes that concern more than the description are passed on as they were asked for.
pub proof fn law_other_changes_are_passed_on(
    table: TableModel,
    name: Seq<char>,
    other: Seq<char>,
    columns: Seq<Seq<char>>,
    unique: bool,
    flag: bool,
    rows: Seq<EntryModel>,
    check: VerdictModel,
)
    ensures
        altered(table, AlterModel::RenameTable { new_name: name }, rows, check) matches Ok(
            ChangeModel::RenameTable { new_name },
        ) && new_name == name,
        altered(
            table,
            AlterModel::AddIndex {
                index_name: name,
                column_names: columns,
                unique,
                if_not_exists: flag,
            },
            rows,
            check,
        ) matches Ok(
            ChangeModel::CreateIndex { index_name, column_names, unique: u, if_not_exists },
        ) && index_name == name && column_names == columns && u == unique && if_not_exists == flag,
        altered(
            table,
            AlterModel::DropIndex { index_name: name, if_exists: flag },
            rows,
            check,
        ) matches Ok(ChangeModel::DropIndex { index_name, if_exists }) && index_name == name
            && if_exists == flag,
        altered(
            table,
            AlterModel::RenameIndex { old_name: name, new_name: other },
            rows,
            check,
        ) matches Ok(ChangeModel::RenameIndex { old_name, new_name }) && old_name == name
            && new_name == other,
{
}

/// Whether some option declares a thing.
pub open spec fn declares(
    options: Seq<ColumnOptionModel>,
    what: spec_fn(OptionModel) -> bool,
) -> bool {
    exists|i: int| 0 <= i < options.len() && what((#[trigger] options[i]).kind)
}

proof fn lemma_declares(options: Seq<ColumnOptionModel>, what: spec_fn(OptionModel) -> bool)
    requires
        options.len() > 0,
    ensures
        declares(options, what) <==> declares(options.drop_last(), what) || what(
            options.last().kind,
        ),
{
    let init = options.drop_last();
    if declares(init, what) {
        let i = choose|i: int| 0 <= i < init.len() && what((#[trigger] init[i]).kind);
        assert(options[i] == init[i]);
    }
    if declares(options, what) {
        let i = choose|i: int| 0 <= i < options.len() && what((#[trigger] options[i]).kind);
        if i < init.len() {
            assert(init[i] == options[i]);
        }
    }
    if what(options.last().kind) {
        assert(what(options[options.len() - 1].kind));
    }
}

proof fn lemma_traits(
    table_name: Seq<char>,
    column_name: Seq<char>,
    options: Seq<ColumnOptionModel>,
)
    ensures
        options_taken(table_name, column_name, options) matches Ok(traits) ==> {
            &&& traits.is_primary <==> declares(options, |kind: OptionModel| kind is PrimaryKey)
            &&& traits.is_unique <==> declares(options, |kind: OptionModel| kind is Unique)
            &&& traits.counts <==> declares(options, |kind: OptionModel| kind is AutoIncrement)
            &&& traits.nullable <==> !declares(
                options,
                |kind: OptionModel| kind is NotNull || kind is PrimaryKey,
            )
            &&& traits.default is Some <==> declares(
                options,
                |kind: OptionModel| kind is DefaultValue,
            )
            &&& traits.on_update is Some <==> declares(
                options,
                |kind: OptionModel| kind is OnUpdate,
            )
            &&& traits.foreign_key is Some <==> declares(
                options,
                |kind: OptionModel| kind is ForeignKey,
            )
            &&& traits.checks.len() > 0 <==> declares(options, |kind: OptionModel| kind is Check)
        },
    decreases options.len(),
{
    if options.len() > 0 {
        lemma_traits(table_name, column_name, options.drop_last());
        lemma_declares(options, |kind: OptionModel| kind is PrimaryKey);
        lemma_declares(options, |kind: OptionModel| kind is Unique);
        lemma_declares(options, |kind: OptionModel| kind is AutoIncrement);
        lemma_declares(options, |kind: OptionModel| kind is NotNull || kind is PrimaryKey);
        lemma_declares(options, |kind: OptionModel| kind is DefaultValue);
        lemma_declares(options, |kind: OptionModel| kind is OnUpdate);
        lemma_declares(options, |kind: OptionModel| kind is ForeignKey);
        lemma_declares(options, |kind: OptionModel| kind is Check);
    }
}

/// A column is as it is declared: it has its name and its type; it is the key, unique, checked or
/// referring where an option says so; it may be null unless it is said not to be, is the key or
/// counts by itself; and it has a default where one is declared or it takes numbers.
pub proof fn law_columns_are_as_declared(
    schema_name: Seq<char>,
    table_name: Seq<char>,
    ordinal: u32,
    def: DefModel,
)
    ensures
        column_described(schema_name, table_name, ordinal, def) matches Ok(parts) ==> {
            let primary = declares(def.options, |kind: OptionModel| kind is PrimaryKey);
            let counts = declares(def.options, |kind: OptionModel| kind is AutoIncrement);
            &&& parts.column.name == def.name
            &&& parts.column.data_type == def.data_type
            &&& parts.column.column_id == ordinal
            &&& parts.column.primary_key <==> primary
            &&& parts.column.nullable <==> !declares(
                def.options,
                |kind: OptionModel| kind is NotNull || kind is PrimaryKey,
            ) && !counts
            &&& parts.column.on_update is Some <==> declares(
                def.options,
                |kind: OptionModel| kind is OnUpdate,
            )
            &&& parts.column.default is Some <==> declares(
                def.options,
                |kind: OptionModel| kind is DefaultValue,
            ) || def.serial || counts
            &&& parts.unique is Some <==> primary || declares(
                def.options,
                |kind: OptionModel| kind is Unique,
            )
            &&& parts.unique matches Some(unique) ==> unique.columns == seq![def.name]
                && unique.primary_key == primary
            &&& parts.foreign_key is Some <==> declares(
                def.options,
                |kind: OptionModel| kind is ForeignKey,
            )
            &&& parts.checks.len() > 0 <==> declares(def.options, |kind: OptionModel| kind is Check)
        },
{
    lemma_traits(table_name, def.name, def.options);
}

/// An option at the end of a declaration adds what it says: the default or the value on update is
/// its expression, the check is one more with its expression, and the foreign key is from the
/// column to the table and the columns that it names.
pub proof fn law_options_mean_what_they_say(
    table_name: Seq<char>,
    column_name: Seq<char>,
    options: Seq<ColumnOptionModel>,
    name: Option<Seq<char>>,
    expr: Seq<char>,
)
    requires
        options_taken(table_name, column_name, options) is Ok,
    ensures
        ({
            let before = options_taken(table_name, column_name, options)->Ok_0;
            &&& options_taken(
                table_name,
                column_name,
                options.push(
                    ColumnOptionModel { name, kind: OptionModel::DefaultValue { expr } },
                ),
            ) == Ok::<TraitsModel, Report>(TraitsModel { default: Some(expr), ..before })
            &&& options_taken(
                table_name,
                column_name,
                options.push(ColumnOptionModel { name, kind: OptionModel::OnUpdate { expr } }),
            ) == Ok::<TraitsModel, Report>(TraitsModel { on_update: Some(expr), ..before })
            &&& options_taken(
                table_name,
                column_name,
                options.push(ColumnOptionModel { name, kind: OptionModel::Check { expr } }),
            ) matches Ok(after) && after.checks.drop_last() == before.checks
                && after.checks.last().expr == expr && (name matches Some(given)
                ==> after.checks.last().name == given) && after == (TraitsModel {
                checks: after.checks,
                ..before
            })
        }),
{
    let before = options_taken(table_name, column_name, options)->Ok_0;
    let default = ColumnOptionModel { name, kind: OptionModel::DefaultValue { expr } };
    let update = ColumnOptionModel { name, kind: OptionModel::OnUpdate { expr } };
    let check = ColumnOptionModel { name, kind: OptionModel::Check { expr } };
    assert(options.push(default).drop_last() =~= options);
    assert(options.push(update).drop_last() =~= options);
    assert(options.push(check).drop_last() =~= options);
    let after = options_taken(table_name, column_name, options.push(check))->Ok_0;
    assert(after.checks.drop_last() =~= before.checks);
}

/// A column that counts by itself, or is declared to take numbers, takes them from its own
/// sequence, unless it has another default.
pub proof fn law_counting_columns_have_a_sequence(
    schema_name: Seq<char>,
    table_name: Seq<char>,
    ordinal: u32,
    def: DefModel,
)
    requires
        def.serial || declares(def.options, |kind: OptionModel| kind is AutoIncrement),
        !declares(def.options, |kind: OptionModel| kind is DefaultValue),
    ensures
        column_described(schema_name, table_name, ordinal, def) matches Ok(parts)
            ==> parts.column.default == Some(
            nextval_default(serial_name(schema_name, table_name, def.name)),
        ),
{
    lemma_traits(table_name, def.name, def.options);
}

} // verus!
