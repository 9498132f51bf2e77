//! Plans for tables that are to be made.
use vstd::prelude::*;

use crate::catalog::model::{
    bootstrapped, counted, indexes_listed, law_bootstrap_is_stable, next_number, scope_found,
    table_found,
};
use crate::catalog::types::{IndexCatalog, IndexModel};
use crate::error::{
    not_internal, report, unsupported, unsupported_report, user_error, user_error_text, Report,
    UserError,
};
use crate::mem_store::{Contents, KvStore};
use crate::names::{join_names, joined, object_name, object_name_to_string, ObjectName, PartModel};
use crate::schema::{
    duplicate_all, has_column, lemma_column_position, normalized, option_view, seen, views,
    CheckConstraintSchema, CheckModel, ColumnModel, ColumnSchema, Duplicate,
    ForeignKeyConstraintSchema, ForeignKeyModel, TableModel, TableSchema, UniqueConstraintSchema,
    UniqueModel,
};
use crate::server::alter::{no_column, no_column_error};
use crate::server::ast::{
    ColumnDef, ConstraintModel, DefModel, IndexColumn, IndexColumnModel, TableConstraint,
};
use crate::server::ddl_columns::{
    column_described, column_schema_from_def, constraint_name, constraint_text, index_column_names,
    indexed_columns, low_bits, name_or, named_or, ordinal_behind, two_texts,
};
use crate::server::ddl_plan::object_to_drop;
use crate::server::exec_rows::unknown_column;
use crate::server::gateway::{
    only_opened, resolve_scoped_name, scoped_name, table_required, GatewayServer,
};
use crate::server::plan::{IndexPlan, IndexPlanModel, PlanModel, QueryPlan};
use crate::server::sequences::{
    nextval_default, nextval_default_text, nextval_name, nextval_sequence_name, serial_name,
    serial_sequence_name,
};
use crate::text::{same_text, three_texts};
use crate::types::{type_code, DataType, INTERNAL_ROWID_COLUMN};

verus! {

/// The counter that tables take their identifiers from.
pub const TABLE_COUNTER: &'static str = "__catalog__/next_table_id";

/// A table that is being declared.
pub struct TableDraft {
    pub columns: Vec<ColumnSchema>,
    pub primary_key: Option<String>,
    pub checks: Vec<CheckConstraintSchema>,
    pub uniques: Vec<UniqueConstraintSchema>,
    pub foreign_keys: Vec<ForeignKeyConstraintSchema>,
    pub indexes: Vec<IndexPlan>,
}

/// What a [`TableDraft`] says.
pub struct DraftModel {
    pub columns: Seq<ColumnModel>,
    pub primary_key: Option<Seq<char>>,
    pub checks: Seq<CheckModel>,
    pub uniques: Seq<UniqueModel>,
    pub foreign_keys: Seq<ForeignKeyModel>,
    pub indexes: Seq<IndexPlanModel>,
}

impl View for TableDraft {
    type V = DraftModel;

    open spec fn view(&self) -> DraftModel {
        DraftModel {
            columns: views(self.columns@),
            primary_key: option_view(self.primary_key),
            checks: views(self.checks@),
            uniques: views(self.uniques@),
            foreign_keys: views(self.foreign_keys@),
            indexes: views(self.indexes@),
        }
    }
}

/// A table of which nothing is declared.
pub open spec fn empty_draft() -> DraftModel {
    DraftModel {
        columns: seq![],
        primary_key: None,
        checks: seq![],
        uniques: seq![],
        foreign_keys: seq![],
        indexes: seq![],
    }
}

/// A list with an item behind it, where there is one.
pub open spec fn with_one<V>(items: Seq<V>, item: Option<V>) -> Seq<V> {
    match item {
        Some(value) => items.push(value),
        None => items,
    }
}

/// A table with one more column.
pub open spec fn with_column(
    draft: DraftModel,
    schema_name: Seq<char>,
    table_name: Seq<char>,
    def: DefModel,
) -> Result<DraftModel, Report> {
    match column_described(schema_name, table_name, low_bits(draft.columns.len() + 1), def) {
        Err(e) => Err(e),
        Ok(parts) => Ok(
            DraftModel {
                columns: draft.columns.push(parts.column),
                primary_key: if parts.column.primary_key {
                    Some(parts.column.name)
                } else {
                    draft.primary_key
                },
                checks: draft.checks + parts.checks,
                uniques: with_one(draft.uniques, parts.unique),
                foreign_keys: with_one(draft.foreign_keys, parts.foreign_key),
                indexes: draft.indexes,
            },
        ),
    }
}

/// A table with columns, declared one after the other.
pub open spec fn with_columns(
    schema_name: Seq<char>,
    table_name: Seq<char>,
    defs: Seq<DefModel>,
) -> Result<DraftModel, Report>
    decreases defs.len(),
{
    if defs.len() == 0 {
        Ok(empty_draft())
    } else {
        match with_columns(schema_name, table_name, defs.drop_last()) {
            Err(e) => Err(e),
            Ok(draft) => with_column(draft, schema_name, table_name, defs.last()),
        }
    }
}

/// The columns of a constraint, which has some, all of them columns of the table.
pub open spec fn constrained_columns(
    columns: Seq<ColumnModel>,
    parts: Seq<IndexColumnModel>,
) -> Result<Seq<Seq<char>>, Report> {
    match indexed_columns(parts) {
        Err(e) => Err(e),
        Ok(names) => if names.len() == 0 {
            Err(report("42601"@, "UNIQUE constraint requires columns"@))
        } else {
            match unknown_column(columns, names) {
                Some(name) => Err(no_column(name)),
                None => Ok(names),
            }
        },
    }
}

/// A table with one more index, where it has columns.
pub open spec fn with_index_on(
    draft: DraftModel,
    table_name: Seq<char>,
    name: Option<Seq<char>>,
    parts: Seq<IndexColumnModel>,
) -> Result<DraftModel, Report> {
    match indexed_columns(parts) {
        Err(e) => Err(e),
        Ok(names) => if names.len() == 0 {
            Ok(draft)
        } else {
            Ok(
                DraftModel {
                    indexes: draft.indexes.push(
                        IndexPlanModel {
                            index_name: named_or(
                                name,
                                constraint_text(table_name, joined(names, "_"@), "_idx"@),
                            ),
                            column_names: names,
                            unique: false,
                        },
                    ),
                    ..draft
                },
            )
        },
    }
}

/// A table with one more constraint.
pub open spec fn with_constraint(
    draft: DraftModel,
    table_name: Seq<char>,
    constraint: ConstraintModel,
) -> Result<DraftModel, Report> {
    match constraint {
        ConstraintModel::Unique { name, columns } => match constrained_columns(
            draft.columns,
            columns,
        ) {
            Err(e) => Err(e),
            Ok(names) => Ok(
                DraftModel {
                    uniques: draft.uniques.push(
                        UniqueModel {
                            name: named_or(
                                name,
                                constraint_text(table_name, joined(names, "_"@), "_key"@),
                            ),
                            columns: names,
                            primary_key: false,
                        },
                    ),
                    ..draft
                },
            ),
        },
        ConstraintModel::PrimaryKey { name, columns } => match constrained_columns(
            draft.columns,
            columns,
        ) {
            Err(e) => Err(e),
            Ok(names) => if names.len() != 1 {
                Err(unsupported_report("composite primary keys are not supported yet"@))
            } else {
                Ok(
                    DraftModel {
                        primary_key: Some(names[0]),
                        uniques: draft.uniques.push(
                            UniqueModel {
                                name: named_or(name, table_name + "_pkey"@),
                                columns: names,
                                primary_key: true,
                            },
                        ),
                        ..draft
                    },
                )
            },
        },
        ConstraintModel::Check { name, expr } => Ok(
            DraftModel {
                checks: draft.checks.push(
                    CheckModel { name: named_or(name, table_name + "_check"@), expr },
                ),
                ..draft
            },
        ),
        ConstraintModel::ForeignKey {
            name,
            index_name,
            columns,
            foreign_table,
            referred_columns,
        } => match object_name(foreign_table) {
            Err(e) => Err(e),
            Ok(table) => Ok(
                DraftModel {
                    foreign_keys: draft.foreign_keys.push(
                        ForeignKeyModel {
                            name: named_or(name, table_name + "_fkey"@),
                            columns,
                            foreign_table: table,
                            referred_columns,
                        },
                    ),
                    ..draft
                },
            ),
        },
        ConstraintModel::Index { name, columns } => with_index_on(draft, table_name, name, columns),
        ConstraintModel::FulltextOrSpatial { name, columns } => with_index_on(
            draft,
            table_name,
            name,
            columns,
        ),
        ConstraintModel::Other => Ok(draft),
    }
}

/// A table with constraints, put on it one after the other.
pub open spec fn with_constraints(
    draft: DraftModel,
    table_name: Seq<char>,
    constraints: Seq<ConstraintModel>,
) -> Result<DraftModel, Report>
    decreases constraints.len(),
{
    if constraints.len() == 0 {
        Ok(draft)
    } else {
        match with_constraints(draft, table_name, constraints.drop_last()) {
            Err(e) => Err(e),
            Ok(next) => with_constraint(next, table_name, constraints.last()),
        }
    }
}

/// A failure among the first columns is that of all.
proof fn lemma_columns_fail(
    schema_name: Seq<char>,
    table_name: Seq<char>,
    defs: Seq<DefModel>,
    n: int,
)
    requires
        0 <= n <= defs.len(),
        with_columns(schema_name, table_name, defs.take(n)) is Err,
    ensures
        with_columns(schema_name, table_name, defs) == with_columns(
            schema_name,
            table_name,
            defs.take(n),
        ),
    decreases defs.len() - n,
{
    if n == defs.len() {
        assert(defs.take(n) =~= defs);
    } else {
        assert(defs.take(n + 1).drop_last() =~= defs.take(n));
        lemma_columns_fail(schema_name, table_name, defs, n + 1);
    }
}

/// A failure among the first constraints is that of all.
proof fn lemma_constraints_fail(
    draft: DraftModel,
    table_name: Seq<char>,
    constraints: Seq<ConstraintModel>,
    n: int,
)
    requires
        0 <= n <= constraints.len(),
        with_constraints(draft, table_name, constraints.take(n)) is Err,
    ensures
        with_constraints(draft, table_name, constraints) == with_constraints(
            draft,
            table_name,
            constraints.take(n),
        ),
    decreases constraints.len() - n,
{
    if n == constraints.len() {
        assert(constraints.take(n) =~= constraints);
    } else {
        assert(constraints.take(n + 1).drop_last() =~= constraints.take(n));
        lemma_constraints_fail(draft, table_name, constraints, n + 1);
    }
}

/// The key of a table: the declared one, else a column `id`, else the row identifier.
pub open spec fn key_of_draft(draft: DraftModel) -> Seq<char> {
    match draft.primary_key {
        Some(name) => name,
        None => if has_column(draft.columns, "id"@) {
            "id"@
        } else {
            INTERNAL_ROWID_COLUMN@
        },
    }
}

/// Columns, of which those with a name are the key.
pub open spec fn keyed_columns(columns: Seq<ColumnModel>, key: Seq<char>) -> Seq<ColumnModel> {
    columns.map_values(
        |column: ColumnModel|
            ColumnModel {
                primary_key: column.primary_key || column.name == key,
                nullable: column.nullable && column.name != key,
                ..column
            },
    )
}

/// The table that a draft describes.
pub open spec fn drafted(draft: DraftModel, table_id: u32, table_name: Seq<char>) -> TableModel {
    normalized(
        TableModel {
            table_name,
            table_id,
            schema_version: 1,
            table_epoch: 1,
            primary_key: key_of_draft(draft),
            check_constraints: draft.checks,
            unique_constraints: draft.uniques,
            foreign_keys: draft.foreign_keys,
            columns: keyed_columns(draft.columns, key_of_draft(draft)),
        },
    )
}

/// The table, with its indexes, that a statement declares.
pub open spec fn table_described(
    table_id: u32,
    schema_name: Seq<char>,
    table_name: Seq<char>,
    columns: Seq<DefModel>,
    constraints: Seq<ConstraintModel>,
) -> Result<(TableModel, Seq<IndexPlanModel>), Report> {
    match with_columns(schema_name, table_name, columns) {
        Err(e) => Err(e),
        Ok(draft) => match with_constraints(draft, table_name, constraints) {
            Err(e) => Err(e),
            Ok(full) => Ok((drafted(full, table_id, table_name), full.indexes)),
        },
    }
}

/// Whether no column has a name.
pub fn lacks_column(columns: &Vec<ColumnSchema>, name: &str) -> (answer: bool)
    ensures
        answer == !has_column(views(columns@), name@),
{
    let ghost all = views(columns@);
    proof {
        lemma_column_position(all, name@);
    }
    let mut i: usize = 0;
    while i < columns.len()
        invariant
            i <= columns@.len(),
            all == views(columns@),
            forall|k: int| 0 <= k < i ==> (#[trigger] all[k]).name != name@,
        decreases columns@.len() - i,
    {
        assert(all[i as int] == columns@[i as int]@);
        if same_text(columns[i].name.as_str(), name) {
            proof {
                lemma_column_position(all, name@);
            }
            return false;
        }
        i += 1;
    }
    proof {
        lemma_column_position(all, name@);
    }
    true
}

/// The columns of a constraint.
fn constraint_columns(columns: &Vec<ColumnSchema>, parts: &Vec<IndexColumn>) -> (result: Result<
    Vec<String>,
    UserError,
>)
    ensures
        crate::schema::seen_all(result) == constrained_columns(views(columns@), views(parts@)),
{
    let names = match index_column_names(parts) {
        Err(e) => {
            return Err(e);
        },
        Ok(names) => names,
    };
    let ghost all = views(names@);
    if names.len() == 0 {
        return Err(user_error("42601", "UNIQUE constraint requires columns"));
    }
    let mut i: usize = 0;
    assert(all.skip(0) =~= all);
    while i < names.len()
        invariant
            i <= names@.len(),
            all == views(names@),
            all.len() > 0,
            indexed_columns(views(parts@)) == Ok::<Seq<Seq<char>>, Report>(all),
            unknown_column(views(columns@), all) == unknown_column(
                views(columns@),
                all.skip(i as int),
            ),
        decreases names@.len() - i,
    {
        assert(all.skip(i as int)[0] == names@[i as int]@);
        assert(all.skip(i as int).skip(1) =~= all.skip(i + 1));
        if lacks_column(columns, names[i].as_str()) {
            return Err(no_column_error(names[i].as_str()));
        }
        i += 1;
    }
    Ok(names)
}

impl TableDraft {
    /// A table of which nothing is declared.
    fn new() -> (draft: TableDraft)
        ensures
            draft@ == empty_draft(),
    {
        let draft = TableDraft {
            columns: Vec::new(),
            primary_key: None,
            checks: Vec::new(),
            uniques: Vec::new(),
            foreign_keys: Vec::new(),
            indexes: Vec::new(),
        };
        assert(draft@.columns =~= empty_draft().columns);
        assert(draft@.checks =~= empty_draft().checks);
        assert(draft@.uniques =~= empty_draft().uniques);
        assert(draft@.foreign_keys =~= empty_draft().foreign_keys);
        assert(draft@.indexes =~= empty_draft().indexes);
        draft
    }

    /// Declares one more column.
    fn add_column(&mut self, schema_name: &str, table_name: &str, def: &ColumnDef) -> (result:
        Result<(), UserError>)
        ensures
            match result {
                Ok(_) => with_column(old(self)@, schema_name@, table_name@, def@) == Ok::<
                    DraftModel,
                    Report,
                >(final(self)@),
                Err(e) => with_column(old(self)@, schema_name@, table_name@, def@) == Err::<
                    DraftModel,
                    Report,
                >(e@),
            },
    {
        let ghost before = self@;
        let parts = match column_schema_from_def(
            schema_name,
            table_name,
            ordinal_behind(self.columns.len(), 0),
            def,
        ) {
            Err(e) => {
                return Err(e);
            },
            Ok(parts) => parts,
        };
        let ghost model = parts@;
        if parts.column.primary_key {
            self.primary_key = Some(parts.column.name.clone());
        }
        let mut i: usize = 0;
        assert(before.checks + model.checks.take(0) =~= before.checks);
        while i < parts.checks.len()
            invariant
                i <= parts.checks@.len(),
                model.checks == views(parts.checks@),
                views(self.checks@) == before.checks + model.checks.take(i as int),
                self.columns == old(self).columns,
                self.uniques == old(self).uniques,
                self.foreign_keys == old(self).foreign_keys,
                self.indexes == old(self).indexes,
                option_view(self.primary_key) == (if model.column.primary_key {
                    Some(model.column.name)
                } else {
                    before.primary_key
                }),
            decreases parts.checks@.len() - i,
        {
            let check = parts.checks[i].duplicate();
            let ghost so_far = views(self.checks@);
            let ghost added = check@;
            self.checks.push(check);
            assert(views(self.checks@) =~= so_far.push(added));
            assert(model.checks.take(i + 1) =~= model.checks.take(i as int).push(added));
            assert(views(self.checks@) =~= before.checks + model.checks.take(i + 1));
            i += 1;
        }
        assert(model.checks.take(i as int) =~= model.checks);
        match parts.unique {
            Some(unique) => {
                self.uniques.push(unique);
                assert(views(self.uniques@) =~= before.uniques.push(unique@));
            },
            None => {},
        }
        match parts.foreign_key {
            Some(key) => {
                self.foreign_keys.push(key);
                assert(views(self.foreign_keys@) =~= before.foreign_keys.push(key@));
            },
            None => {},
        }
        self.columns.push(parts.column);
        assert(views(self.columns@) =~= before.columns.push(model.column));
        Ok(())
    }

    /// Declares one more index, where it has columns.
    fn add_index(&mut self, table_name: &str, name: &Option<String>, parts: &Vec<IndexColumn>) -> (
        result: Result<(), UserError>)
        ensures
            match result {
                Ok(_) => with_index_on(
                    old(self)@,
                    table_name@,
                    option_view(*name),
                    views(parts@),
                ) == Ok::<DraftModel, Report>(final(self)@),
                Err(e) => with_index_on(
                    old(self)@,
                    table_name@,
                    option_view(*name),
                    views(parts@),
                ) == Err::<DraftModel, Report>(e@),
            },
    {
        let names = match index_column_names(parts) {
            Err(e) => {
                return Err(e);
            },
            Ok(names) => names,
        };
        if names.len() == 0 {
            return Ok(());
        }
        let ghost before = views(self.indexes@);
        let text = join_names(&names, "_");
        let index = IndexPlan {
            index_name: name_or(name, constraint_name(table_name, text.as_str(), "_idx")),
            column_names: names,
            unique: false,
        };
        let ghost added = index@;
        self.indexes.push(index);
        assert(views(self.indexes@) =~= before.push(added));
        Ok(())
    }

    /// Puts one more constraint on the table.
    fn add_constraint(&mut self, table_name: &str, constraint: &TableConstraint) -> (result: Result<
        (),
        UserError,
    >)
        ensures
            match result {
                Ok(_) => with_constraint(old(self)@, table_name@, constraint@) == Ok::<
                    DraftModel,
                    Report,
                >(final(self)@),
                Err(e) => with_constraint(old(self)@, table_name@, constraint@) == Err::<
                    DraftModel,
                    Report,
                >(e@),
            },
    {
        let ghost before = self@;
        match constraint {
            TableConstraint::Unique { name, columns } => {
                let names = match constraint_columns(&self.columns, columns) {
                    Err(e) => {
                        return Err(e);
                    },
                    Ok(names) => names,
                };
                let text = join_names(&names, "_");
                let unique = UniqueConstraintSchema {
                    name: name_or(name, constraint_name(table_name, text.as_str(), "_key")),
                    columns: names,
                    primary_key: false,
                };
                let ghost added = unique@;
                self.uniques.push(unique);
                assert(views(self.uniques@) =~= before.uniques.push(added));
            },
            TableConstraint::PrimaryKey { name, columns } => {
                let names = match constraint_columns(&self.columns, columns) {
                    Err(e) => {
                        return Err(e);
                    },
                    Ok(names) => names,
                };
                if names.len() != 1 {
                    return Err(unsupported("composite primary keys are not supported yet"));
                }
                assert(views(names@)[0] == names@[0]@);
                self.primary_key = Some(names[0].clone());
                let unique = UniqueConstraintSchema {
                    name: name_or(name, two_texts(table_name, "_pkey")),
                    columns: names,
                    primary_key: true,
                };
                let ghost added = unique@;
                self.uniques.push(unique);
                assert(views(self.uniques@) =~= before.uniques.push(added));
            },
            TableConstraint::Check { name, expr } => {
                let check = CheckConstraintSchema {
                    name: name_or(name, two_texts(table_name, "_check")),
                    expr: expr.clone(),
                };
                let ghost added = check@;
                self.checks.push(check);
                assert(views(self.checks@) =~= before.checks.push(added));
            },
            TableConstraint::ForeignKey {
                name,
                index_name,
                columns,
                foreign_table,
                referred_columns,
            } => {
                let table = match object_name_to_string(foreign_table) {
                    Err(e) => {
                        return Err(e);
                    },
                    Ok(table) => table,
                };
                let key = ForeignKeyConstraintSchema {
                    name: name_or(name, two_texts(table_name, "_fkey")),
                    columns: duplicate_all(columns),
                    foreign_table: table,
                    referred_columns: duplicate_all(referred_columns),
                };
                let ghost added = key@;
                self.foreign_keys.push(key);
                assert(views(self.foreign_keys@) =~= before.foreign_keys.push(added));
            },
            TableConstraint::Index { name, columns } => {
                return self.add_index(table_name, name, columns);
            },
            TableConstraint::FulltextOrSpatial { name, columns } => {
                return self.add_index(table_name, name, columns);
            },
            TableConstraint::Other => {},
        }
        Ok(())
    }
}

/// The table, with its indexes, that a statement declares.
pub fn describe_table(
    table_id: u32,
    schema_name: &str,
    table_name: &str,
    columns: &Vec<ColumnDef>,
    constraints: &Vec<TableConstraint>,
) -> (result: Result<(TableSchema, Vec<IndexPlan>), UserError>)
    ensures
        match result {
            Ok(found) => table_described(
                table_id,
                schema_name@,
                table_name@,
                views(columns@),
                views(constraints@),
            ) == Ok::<(TableModel, Seq<IndexPlanModel>), Report>((found.0@, views(found.1@))),
            Err(e) => table_described(
                table_id,
                schema_name@,
                table_name@,
                views(columns@),
                views(constraints@),
            ) == Err::<(TableModel, Seq<IndexPlanModel>), Report>(e@),
        },
{
    let ghost defs = views(columns@);
    let ghost all = views(constraints@);
    let mut draft = TableDraft::new();
    let mut i: usize = 0;
    assert(defs.take(0) =~= Seq::<DefModel>::empty());
    while i < columns.len()
        invariant
            i <= columns@.len(),
            defs == views(columns@),
            with_columns(schema_name@, table_name@, defs.take(i as int)) == Ok::<
                DraftModel,
                Report,
            >(draft@),
        decreases columns@.len() - i,
    {
        assert(defs.take(i + 1).drop_last() =~= defs.take(i as int));
        assert(defs.take(i + 1).last() == columns@[i as int]@);
        match draft.add_column(schema_name, table_name, &columns[i]) {
            Err(e) => {
                proof {
                    lemma_columns_fail(schema_name@, table_name@, defs, i + 1);
                }
                return Err(e);
            },
            Ok(_) => {},
        }
        i += 1;
    }
    assert(defs.take(i as int) =~= defs);
    let ghost first = draft@;
    let mut j: usize = 0;
    assert(all.take(0) =~= Seq::<ConstraintModel>::empty());
    while j < constraints.len()
        invariant
            j <= constraints@.len(),
            all == views(constraints@),
            with_columns(schema_name@, table_name@, views(columns@)) == Ok::<DraftModel, Report>(
                first,
            ),
            with_constraints(first, table_name@, all.take(j as int)) == Ok::<DraftModel, Report>(
                draft@,
            ),
        decreases constraints@.len() - j,
    {
        assert(all.take(j + 1).drop_last() =~= all.take(j as int));
        assert(all.take(j + 1).last() == constraints@[j as int]@);
        match draft.add_constraint(table_name, &constraints[j]) {
            Err(e) => {
                proof {
                    lemma_constraints_fail(first, table_name@, all, j + 1);
                }
                return Err(e);
            },
            Ok(_) => {},
        }
        j += 1;
    }
    assert(all.take(j as int) =~= all);
    let ghost full = draft@;
    let primary_key = match &draft.primary_key {
        Some(name) => name.clone(),
        None => {
            if lacks_column(&draft.columns, "id") {
                INTERNAL_ROWID_COLUMN.to_string()
            } else {
                "id".to_string()
            }
        },
    };
    assert(primary_key@ == key_of_draft(full));
    let mut keyed: Vec<ColumnSchema> = Vec::new();
    let mut k: usize = 0;
    let ghost expected = keyed_columns(full.columns, primary_key@);
    while k < draft.columns.len()
        invariant
            k <= draft.columns@.len(),
            full.columns == views(draft.columns@),
            expected == keyed_columns(full.columns, primary_key@),
            keyed@.len() == k,
            forall|n: int| 0 <= n < k ==> (#[trigger] keyed@[n])@ == expected[n],
        decreases draft.columns@.len() - k,
    {
        let mut column = draft.columns[k].duplicate();
        assert(full.columns[k as int] == draft.columns@[k as int]@);
        if same_text(column.name.as_str(), primary_key.as_str()) {
            column.primary_key = true;
            column.nullable = false;
        }
        keyed.push(column);
        k += 1;
    }
    assert(views(keyed@) =~= expected);
    let mut schema = TableSchema {
        table_name: table_name.to_string(),
        table_id,
        schema_version: 1,
        table_epoch: 1,
        primary_key,
        check_constraints: draft.checks,
        unique_constraints: draft.uniques,
        foreign_keys: draft.foreign_keys,
        columns: keyed,
    };
    schema.normalize_descriptor();
    Ok((schema, draft.indexes))
}

/// The key of a table is one of its columns, which is marked as such, or the row identifier.
pub proof fn law_described_key(
    table_id: u32,
    schema_name: Seq<char>,
    table_name: Seq<char>,
    columns: Seq<DefModel>,
    constraints: Seq<ConstraintModel>,
)
    ensures
        table_described(table_id, schema_name, table_name, columns, constraints) matches Ok(found)
            ==> {
            &&& found.0.table_name == table_name
            &&& found.0.table_id == table_id
            &&& forall|i: int|
                0 <= i < found.0.columns.len() && (#[trigger] found.0.columns[i]).name
                    == found.0.primary_key ==> found.0.columns[i].primary_key
                    && !found.0.columns[i].nullable
        },
{
    match table_described(table_id, schema_name, table_name, columns, constraints) {
        Ok(found) => {
            let draft = with_constraints(
                with_columns(schema_name, table_name, columns)->Ok_0,
                table_name,
                constraints,
            )->Ok_0;
            let keyed = TableModel {
                table_name,
                table_id,
                schema_version: 1,
                table_epoch: 1,
                primary_key: key_of_draft(draft),
                check_constraints: draft.checks,
                unique_constraints: draft.uniques,
                foreign_keys: draft.foreign_keys,
                columns: keyed_columns(draft.columns, key_of_draft(draft)),
            };
            crate::schema::law_normalized_keeps_columns(keyed);
        },
        Err(_) => {},
    }
}

/// The place of a table that is to be made: none where one is there and that is no fault.
pub open spec fn place_for_table(
    contents: Contents,
    database_name: Seq<char>,
    default_schema: Seq<char>,
    name: Seq<PartModel>,
    if_not_exists: bool,
) -> Result<Option<(Seq<char>, Seq<char>)>, Report> {
    match object_name(name) {
        Err(e) => Err(e),
        Ok(text) => match scoped_name(default_schema, text) {
            Err(e) => Err(e),
            Ok((schema_name, table_name)) => match scope_found(
                contents,
                database_name,
                schema_name,
            ) {
                Err(e) => Err(e),
                Ok(scope) => match table_found(contents, database_name, schema_name, table_name) {
                    Err(e) => Err(e),
                    Ok(None) => Ok(Some((schema_name, table_name))),
                    Ok(Some(table)) => if if_not_exists {
                        Ok(None)
                    } else {
                        Err(report("42P07"@, "table '"@ + text + "' already exists"@))
                    },
                },
            },
        },
    }
}

/// What is seen of a place.
pub open spec fn seen_place(result: Result<Option<(String, String)>, UserError>) -> Result<
    Option<(Seq<char>, Seq<char>)>,
    Report,
> {
    match result {
        Ok(Some(place)) => Ok(Some((place.0@, place.1@))),
        Ok(None) => Ok(None),
        Err(e) => Err(e@),
    }
}

/// The plan that makes a table: it takes an identifier from the catalog.
pub open spec fn create_table_planned(
    contents: Contents,
    database_name: Seq<char>,
    default_schema: Seq<char>,
    name: Seq<PartModel>,
    columns: Seq<DefModel>,
    constraints: Seq<ConstraintModel>,
    if_not_exists: bool,
    auto_increment_start: Option<i64>,
) -> (Result<PlanModel, Report>, Contents) {
    let opened = bootstrapped(contents);
    match place_for_table(opened, database_name, default_schema, name, if_not_exists) {
        Err(e) => (Err(e), opened),
        Ok(None) => (Ok(PlanModel::Noop { tag: "CREATE TABLE"@ }), opened),
        Ok(Some((schema_name, table_name))) => (
            match table_described(
                next_number(opened, TABLE_COUNTER@),
                schema_name,
                table_name,
                columns,
                constraints,
            ) {
                Err(e) => Err(e),
                Ok((schema, indexes)) => Ok(
                    PlanModel::CreateTable {
                        database_name,
                        schema_name,
                        schema,
                        auto_increment_start,
                        indexes,
                    },
                ),
            },
            counted(opened, TABLE_COUNTER@),
        ),
    }
}

/// A table like another, without its foreign keys and with names of its own.
pub open spec fn likened(
    source: TableModel,
    table_id: u32,
    schema_name: Seq<char>,
    table_name: Seq<char>,
) -> TableModel {
    let base = normalized(
        TableModel {
            table_name,
            table_id,
            schema_version: 1,
            table_epoch: 1,
            foreign_keys: seq![],
            columns: source.columns.map_values(
                |column: ColumnModel| own_sequence(column, schema_name, table_name),
            ),
            ..source
        },
    );
    TableModel {
        unique_constraints: base.unique_constraints.map_values(
            |unique: UniqueModel|
                UniqueModel {
                    name: if unique.primary_key {
                        table_name + "_pkey"@
                    } else {
                        constraint_text(table_name, joined(unique.columns, "_"@), "_key"@)
                    },
                    ..unique
                },
        ),
        check_constraints: base.check_constraints.map_values(
            |check: CheckModel| CheckModel { name: table_name + "_check"@, ..check },
        ),
        ..base
    }
}

/// A column that counts, with a sequence of its own table.
pub open spec fn own_sequence(
    column: ColumnModel,
    schema_name: Seq<char>,
    table_name: Seq<char>,
) -> ColumnModel {
    if column.default matches Some(default) && nextval_name(default) is Some {
        ColumnModel {
            default: Some(nextval_default(serial_name(schema_name, table_name, column.name))),
            ..column
        }
    } else {
        column
    }
}

/// The indexes of a table like another.
pub open spec fn indexes_likened(indexes: Seq<IndexModel>, table_name: Seq<char>) -> Seq<
    IndexPlanModel,
> {
    indexes.map_values(
        |index: IndexModel|
            IndexPlanModel {
                index_name: constraint_text(
                    table_name,
                    joined(index.column_names, "_"@),
                    "_idx"@,
                ),
                column_names: index.column_names,
                unique: index.unique,
            },
    )
}

/// A table like another.
pub fn table_like(source: &TableSchema, table_id: u32, schema_name: &str, table_name: &str) -> (
    table: TableSchema)
    ensures
        table@ == likened(source@, table_id, schema_name@, table_name@),
{
    let ghost model = source@;
    let ghost expected = model.columns.map_values(
        |column: ColumnModel| own_sequence(column, schema_name@, table_name@),
    );
    let mut columns: Vec<ColumnSchema> = Vec::new();
    let mut i: usize = 0;
    while i < source.columns.len()
        invariant
            i <= source.columns@.len(),
            model.columns == views(source.columns@),
            expected == model.columns.map_values(
                |column: ColumnModel| own_sequence(column, schema_name@, table_name@),
            ),
            columns@.len() == i,
            forall|k: int| 0 <= k < i ==> (#[trigger] columns@[k])@ == expected[k],
        decreases source.columns@.len() - i,
    {
        assert(model.columns[i as int] == source.columns@[i as int]@);
        let mut column = source.columns[i].duplicate();
        let counts = match &column.default {
            Some(default) => nextval_sequence_name(default.as_str()).is_some(),
            None => false,
        };
        if counts {
            let sequence = serial_sequence_name(schema_name, table_name, column.name.as_str());
            column.default = Some(nextval_default_text(sequence.as_str()));
        }
        assert(column@ == own_sequence(model.columns[i as int], schema_name@, table_name@));
        columns.push(column);
        i += 1;
    }
    assert(views(columns@) =~= expected);
    let foreign_keys: Vec<ForeignKeyConstraintSchema> = Vec::new();
    assert(views(foreign_keys@) =~= Seq::<ForeignKeyModel>::empty());
    let mut table = TableSchema {
        table_name: table_name.to_string(),
        table_id,
        schema_version: 1,
        table_epoch: 1,
        primary_key: source.primary_key.clone(),
        check_constraints: duplicate_all(&source.check_constraints),
        unique_constraints: duplicate_all(&source.unique_constraints),
        foreign_keys,
        columns,
    };
    table.normalize_descriptor();
    let ghost base = table@;
    let mut uniques: Vec<UniqueConstraintSchema> = Vec::new();
    let ghost named = base.unique_constraints.map_values(
        |unique: UniqueModel|
            UniqueModel {
                name: if unique.primary_key {
                    table_name@ + "_pkey"@
                } else {
                    constraint_text(table_name@, joined(unique.columns, "_"@), "_key"@)
                },
                ..unique
            },
    );
    let mut j: usize = 0;
    while j < table.unique_constraints.len()
        invariant
            j <= table.unique_constraints@.len(),
            base.unique_constraints == views(table.unique_constraints@),
            named == base.unique_constraints.map_values(
                |unique: UniqueModel|
                    UniqueModel {
                        name: if unique.primary_key {
                            table_name@ + "_pkey"@
                        } else {
                            constraint_text(table_name@, joined(unique.columns, "_"@), "_key"@)
                        },
                        ..unique
                    },
            ),
            uniques@.len() == j,
            forall|k: int| 0 <= k < j ==> (#[trigger] uniques@[k])@ == named[k],
        decreases table.unique_constraints@.len() - j,
    {
        assert(base.unique_constraints[j as int] == table.unique_constraints@[j as int]@);
        let mut unique = table.unique_constraints[j].duplicate();
        unique.name = if unique.primary_key {
            two_texts(table_name, "_pkey")
        } else {
            let text = join_names(&unique.columns, "_");
            constraint_name(table_name, text.as_str(), "_key")
        };
        uniques.push(unique);
        j += 1;
    }
    assert(views(uniques@) =~= named);
    let mut checks: Vec<CheckConstraintSchema> = Vec::new();
    let ghost checked = base.check_constraints.map_values(
        |check: CheckModel| CheckModel { name: table_name@ + "_check"@, ..check },
    );
    let mut n: usize = 0;
    while n < table.check_constraints.len()
        invariant
            n <= table.check_constraints@.len(),
            base.check_constraints == views(table.check_constraints@),
            checked == base.check_constraints.map_values(
                |check: CheckModel| CheckModel { name: table_name@ + "_check"@, ..check },
            ),
            checks@.len() == n,
            forall|k: int| 0 <= k < n ==> (#[trigger] checks@[k])@ == checked[k],
        decreases table.check_constraints@.len() - n,
    {
        assert(base.check_constraints[n as int] == table.check_constraints@[n as int]@);
        let mut check = table.check_constraints[n].duplicate();
        check.name = two_texts(table_name, "_check");
        checks.push(check);
        n += 1;
    }
    assert(views(checks@) =~= checked);
    table.unique_constraints = uniques;
    table.check_constraints = checks;
    table
}

/// The indexes of a table like another.
pub fn indexes_like(indexes: &Vec<IndexCatalog>, table_name: &str) -> (plans: Vec<IndexPlan>)
    ensures
        views(plans@) == indexes_likened(views(indexes@), table_name@),
{
    let ghost all = views(indexes@);
    let ghost expected = indexes_likened(all, table_name@);
    let mut plans: Vec<IndexPlan> = Vec::new();
    let mut i: usize = 0;
    while i < indexes.len()
        invariant
            i <= indexes@.len(),
            all == views(indexes@),
            expected == indexes_likened(all, table_name@),
            plans@.len() == i,
            forall|k: int| 0 <= k < i ==> (#[trigger] plans@[k])@ == expected[k],
        decreases indexes@.len() - i,
    {
        assert(all[i as int] == indexes@[i as int]@);
        let text = join_names(&indexes[i].column_names, "_");
        plans.push(
            IndexPlan {
                index_name: constraint_name(table_name, text.as_str(), "_idx"),
                column_names: duplicate_all(&indexes[i].column_names),
                unique: indexes[i].unique,
            },
        );
        i += 1;
    }
    assert(views(plans@) =~= expected);
    plans
}

/// The plan that makes a table like another.
pub open spec fn table_like_planned(
    contents: Contents,
    database_name: Seq<char>,
    default_schema: Seq<char>,
    search_path: Seq<Seq<char>>,
    name: Seq<PartModel>,
    if_not_exists: bool,
    like: Seq<PartModel>,
    auto_increment_start: Option<i64>,
) -> (Result<PlanModel, Report>, Contents) {
    let opened = bootstrapped(contents);
    match place_for_table(opened, database_name, default_schema, name, if_not_exists) {
        Err(e) => (Err(e), opened),
        Ok(None) => (Ok(PlanModel::Noop { tag: "CREATE TABLE"@ }), opened),
        Ok(Some((schema_name, table_name))) => match object_name(like) {
            Err(e) => (Err(e), opened),
            Ok(source_name) => match table_required(
                opened,
                database_name,
                search_path,
                source_name,
            ) {
                Err(e) => (Err(e), opened),
                Ok((source_schema, source)) => {
                    let after = counted(opened, TABLE_COUNTER@);
                    (
                        match indexes_listed(after, source.table_id) {
                            Err(e) => Err(e),
                            Ok(indexes) => Ok(
                                PlanModel::CreateTable {
                                    database_name,
                                    schema_name,
                                    schema: likened(
                                        source,
                                        next_number(opened, TABLE_COUNTER@),
                                        schema_name,
                                        table_name,
                                    ),
                                    auto_increment_start,
                                    indexes: indexes_likened(indexes, table_name),
                                },
                            ),
                        },
                        after,
                    )
                },
            },
        },
    }
}

/// A column of the result of a query.
pub struct QueryField {
    pub name: String,
    pub data_type: DataType,
}

/// What a [`QueryField`] says.
pub struct QueryFieldModel {
    pub name: Seq<char>,
    pub data_type: Seq<char>,
}

impl View for QueryField {
    type V = QueryFieldModel;

    open spec fn view(&self) -> QueryFieldModel {
        QueryFieldModel { name: self.name@, data_type: type_code(self.data_type) }
    }
}

/// The columns of a table that is made from the result of a query.
pub open spec fn columns_of_query(fields: Seq<QueryFieldModel>) -> Seq<ColumnModel> {
    Seq::new(
        fields.len(),
        |i: int|
            ColumnModel {
                column_id: low_bits((i + 1) as nat),
                name: fields[i].name,
                data_type: fields[i].data_type,
                primary_key: false,
                nullable: true,
                default: None,
                on_update: None,
                character_set: None,
                collation: None,
            },
    )
}

/// A table that is made from the result of a query.
pub open spec fn table_of_query(
    table_id: u32,
    table_name: Seq<char>,
    fields: Seq<QueryFieldModel>,
) -> TableModel {
    normalized(
        TableModel {
            table_name,
            table_id,
            schema_version: 1,
            table_epoch: 1,
            primary_key: INTERNAL_ROWID_COLUMN@,
            check_constraints: seq![],
            unique_constraints: seq![],
            foreign_keys: seq![],
            columns: columns_of_query(fields),
        },
    )
}

/// A table that is made from the result of a query.
pub fn table_from_query(table_id: u32, table_name: &str, fields: &Vec<QueryField>) -> (table:
    TableSchema)
    ensures
        table@ == table_of_query(table_id, table_name@, views(fields@)),
{
    let ghost all = views(fields@);
    let ghost expected = columns_of_query(all);
    let mut columns: Vec<ColumnSchema> = Vec::new();
    let mut i: usize = 0;
    while i < fields.len()
        invariant
            i <= fields@.len(),
            all == views(fields@),
            expected == columns_of_query(all),
            columns@.len() == i,
            forall|k: int| 0 <= k < i ==> (#[trigger] columns@[k])@ == expected[k],
        decreases fields@.len() - i,
    {
        assert(all[i as int] == fields@[i as int]@);
        columns.push(
            ColumnSchema {
                column_id: ordinal_behind(i, 0),
                name: fields[i].name.clone(),
                data_type: fields[i].data_type.copied(),
                primary_key: false,
                nullable: true,
                default: None,
                on_update: None,
                character_set: None,
                collation: None,
            },
        );
        i += 1;
    }
    assert(views(columns@) =~= expected);
    let mut table = TableSchema {
        table_name: table_name.to_string(),
        table_id,
        schema_version: 1,
        table_epoch: 1,
        primary_key: INTERNAL_ROWID_COLUMN.to_string(),
        check_constraints: Vec::new(),
        unique_constraints: Vec::new(),
        foreign_keys: Vec::new(),
        columns,
    };
    assert(table@.check_constraints =~= Seq::<CheckModel>::empty());
    assert(table@.unique_constraints =~= Seq::<UniqueModel>::empty());
    assert(table@.foreign_keys =~= Seq::<ForeignKeyModel>::empty());
    table.normalize_descriptor();
    table
}

/// The place of a table that is to be made from the result of a query.
pub open spec fn place_for_query(
    contents: Contents,
    database_name: Seq<char>,
    default_schema: Seq<char>,
    name: Seq<PartModel>,
    if_not_exists: bool,
) -> Result<Option<(Seq<char>, Seq<char>)>, Report> {
    match object_name(name) {
        Err(e) => Err(e),
        Ok(text) => match scoped_name(default_schema, text) {
            Err(e) => Err(e),
            Ok((schema_name, table_name)) => match table_found(
                contents,
                database_name,
                schema_name,
                table_name,
            ) {
                Err(e) => Err(e),
                Ok(None) => Ok(Some((schema_name, table_name))),
                Ok(Some(table)) => if if_not_exists {
                    Ok(None)
                } else {
                    Err(report("42P07"@, "table '"@ + table_name + "' already exists"@))
                },
            },
        },
    }
}

impl<S: KvStore> GatewayServer<S> {
    /// The place of a table that is to be made.
    fn table_place(
        &mut self,
        database_name: &str,
        default_schema_name: &str,
        name: &ObjectName,
        if_not_exists: bool,
    ) -> (result: Result<Option<(String, String)>, UserError>)
        ensures
            final(self).reliable() == old(self).reliable(),
            final(self).same_sessions(old(self)),
            result matches Ok(Some(_)) ==> final(self).contents() == bootstrapped(
                old(self).contents(),
            ),
            object_to_drop(default_schema_name@, name@) is Err
                ==> final(self).contents() == old(self).contents(),
            not_internal(result) || old(self).reliable()
                || object_to_drop(default_schema_name@, name@) is Err ==> only_opened(
                old(self).contents(),
                final(self).contents(),
            ) && seen_place(result) == place_for_table(
                bootstrapped(old(self).contents()),
                database_name@,
                default_schema_name@,
                name@,
                if_not_exists,
            ),
    {
        proof {
            law_bootstrap_is_stable(self.contents());
        }
        let text = match object_name_to_string(name) {
            Err(e) => {
                return Err(e);
            },
            Ok(text) => text,
        };
        let (schema_name, table_name) = match resolve_scoped_name(
            default_schema_name,
            text.as_str(),
        ) {
            Err(e) => {
                return Err(e);
            },
            Ok(place) => place,
        };
        match self.require_schema(database_name, schema_name.as_str()) {
            Err(e) => {
                return Err(e);
            },
            Ok(_) => {},
        }
        match self.catalog.load_table(database_name, schema_name.as_str(), table_name.as_str()) {
            Err(e) => Err(e),
            Ok(None) => Ok(Some((schema_name, table_name))),
            Ok(Some(_)) => {
                if if_not_exists {
                    return Ok(None);
                }
                Err(
                    user_error_text(
                        "42P07",
                        three_texts("table '", text.as_str(), "' already exists"),
                    ),
                )
            },
        }
    }

    /// Plans a table that a statement declares.
    pub fn plan_create_table(
        &mut self,
        database_name: &str,
        default_schema_name: &str,
        name: &ObjectName,
        columns: &Vec<ColumnDef>,
        constraints: &Vec<TableConstraint>,
        if_not_exists: bool,
        auto_increment_start: Option<i64>,
    ) -> (result: Result<QueryPlan, UserError>)
        ensures
            final(self).reliable() == old(self).reliable(),
            final(self).same_sessions(old(self)),
            object_to_drop(default_schema_name@, name@) is Err
                ==> final(self).contents() == old(self).contents(),
            not_internal(result) || old(self).reliable()
                || object_to_drop(default_schema_name@, name@) is Err ==> {
                let planned = create_table_planned(
                    old(self).contents(),
                    database_name@,
                    default_schema_name@,
                    name@,
                    views(columns@),
                    views(constraints@),
                    if_not_exists,
                    auto_increment_start,
                );
                seen(result) == planned.0 && (final(self).contents() == planned.1
                    || final(self).contents() == old(self).contents() && planned.1
                    == bootstrapped(old(self).contents()))
            },
    {
        proof {
            law_bootstrap_is_stable(self.contents());
        }
        let (schema_name, table_name) = match self.table_place(
            database_name,
            default_schema_name,
            name,
            if_not_exists,
        ) {
            Err(e) => {
                return Err(e);
            },
            Ok(None) => {
                return Ok(QueryPlan::Noop { tag: "CREATE TABLE".to_string() });
            },
            Ok(Some(place)) => place,
        };
        let table_id: u32 = match self.catalog.allocate_table_id() {
            Err(e) => {
                return Err(e);
            },
            Ok(table_id) => table_id,
        };
        match describe_table(
            table_id,
            schema_name.as_str(),
            table_name.as_str(),
            columns,
            constraints,
        ) {
            Err(e) => Err(e),
            Ok((schema, indexes)) => Ok(
                QueryPlan::CreateTable {
                    database_name: database_name.to_string(),
                    schema_name,
                    schema,
                    auto_increment_start,
                    indexes,
                },
            ),
        }
    }

    /// Plans a table like another.
    pub fn plan_create_table_like(
        &mut self,
        database_name: &str,
        default_schema_name: &str,
        search_path: &Vec<String>,
        name: &ObjectName,
        if_not_exists: bool,
        like: &ObjectName,
        auto_increment_start: Option<i64>,
    ) -> (result: Result<QueryPlan, UserError>)
        ensures
            final(self).reliable() == old(self).reliable(),
            final(self).same_sessions(old(self)),
            object_to_drop(default_schema_name@, name@) is Err
                ==> final(self).contents() == old(self).contents(),
            not_internal(result) || old(self).reliable()
                || object_to_drop(default_schema_name@, name@) is Err ==> {
                let planned = table_like_planned(
                    old(self).contents(),
                    database_name@,
                    default_schema_name@,
                    views(search_path@),
                    name@,
                    if_not_exists,
                    like@,
                    auto_increment_start,
                );
                seen(result) == planned.0 && (final(self).contents() == planned.1
                    || final(self).contents() == old(self).contents() && planned.1
                    == bootstrapped(old(self).contents()))
            },
    {
        let ghost opened = bootstrapped(self.contents());
        proof {
            law_bootstrap_is_stable(self.contents());
        }
        let (schema_name, table_name) = match self.table_place(
            database_name,
            default_schema_name,
            name,
            if_not_exists,
        ) {
            Err(e) => {
                return Err(e);
            },
            Ok(None) => {
                return Ok(QueryPlan::Noop { tag: "CREATE TABLE".to_string() });
            },
            Ok(Some(place)) => place,
        };
        let source_name = match object_name_to_string(like) {
            Err(e) => {
                return Err(e);
            },
            Ok(text) => text,
        };
        let (_, source) = match self.require_table(
            database_name,
            search_path,
            source_name.as_str(),
        ) {
            Err(e) => {
                return Err(e);
            },
            Ok(found) => found,
        };
        let table_id: u32 = match self.catalog.allocate_table_id() {
            Err(e) => {
                return Err(e);
            },
            Ok(table_id) => table_id,
        };
        assert(bootstrapped(self.contents()) == self.contents());
        let schema = table_like(&source, table_id, schema_name.as_str(), table_name.as_str());
        let indexes = match self.catalog.list_indexes_for_table(source.table_id) {
            Err(e) => {
                return Err(e);
            },
            Ok(indexes) => indexes,
        };
        let plans = indexes_like(&indexes, table_name.as_str());
        Ok(
            QueryPlan::CreateTable {
                database_name: database_name.to_string(),
                schema_name,
                schema,
                auto_increment_start,
                indexes: plans,
            },
        )
    }

    /// The place of a table that is to be made from the result of a query; none where one is
    /// there and that is no fault.
    pub fn begin_create_table_as(
        &mut self,
        database_name: &str,
        default_schema_name: &str,
        name: &ObjectName,
        if_not_exists: bool,
    ) -> (result: Result<Option<(String, String)>, UserError>)
        ensures
            final(self).reliable() == old(self).reliable(),
            final(self).same_sessions(old(self)),
            object_to_drop(default_schema_name@, name@) is Err
                ==> final(self).contents() == old(self).contents(),
            not_internal(result) || old(self).reliable()
                || object_to_drop(default_schema_name@, name@) is Err ==> only_opened(
                old(self).contents(),
                final(self).contents(),
            ) && seen_place(result) == place_for_query(
                bootstrapped(old(self).contents()),
                database_name@,
                default_schema_name@,
                name@,
                if_not_exists,
            ),
    {
        let text = match object_name_to_string(name) {
            Err(e) => {
                return Err(e);
            },
            Ok(text) => text,
        };
        let (schema_name, table_name) = match resolve_scoped_name(
            default_schema_name,
            text.as_str(),
        ) {
            Err(e) => {
                return Err(e);
            },
            Ok(place) => place,
        };
        match self.catalog.load_table(database_name, schema_name.as_str(), table_name.as_str()) {
            Err(e) => Err(e),
            Ok(None) => Ok(Some((schema_name, table_name))),
            Ok(Some(_)) => {
                if if_not_exists {
                    return Ok(None);
                }
                Err(
                    user_error_text(
                        "42P07",
                        three_texts("table '", table_name.as_str(), "' already exists"),
                    ),
                )
            },
        }
    }

    /// The table that is made from the result of a query, with an identifier of its own.
    pub fn finish_create_table_as(&mut self, table_name: &str, fields: &Vec<QueryField>) -> (result:
        Result<TableSchema, UserError>)
        ensures
            final(self).reliable() == old(self).reliable(),
            final(self).same_sessions(old(self)),
            not_internal(result) || old(self).reliable() ==> {
                let opened = bootstrapped(old(self).contents());
                seen(result) == Ok::<TableModel, Report>(
                    table_of_query(
                        next_number(opened, TABLE_COUNTER@),
                        table_name@,
                        views(fields@),
                    ),
                ) && final(self).contents() == counted(opened, TABLE_COUNTER@)
            },
    {
        let table_id: u32 = match self.catalog.allocate_table_id() {
            Err(e) => {
                return Err(e);
            },
            Ok(table_id) => table_id,
        };
        Ok(table_from_query(table_id, table_name, fields))
    }
}

} // verus!
