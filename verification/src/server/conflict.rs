//! What is done with rows that clash with others when they are inserted.
use vstd::prelude::*;

use crate::catalog::model::{bootstrapped, indexes_listed};
use crate::catalog::types::{IndexCatalog, IndexModel};
use crate::error::{
    not_internal, report, unsupported, unsupported_report, user_error_text, Report, UserError,
};
use crate::mem_store::{Contents, KvStore};
use crate::names::{object_name, object_name_to_string, seen_text, ObjectName, PartModel};
use crate::schema::{
    contains_name, duplicate_all, duplicate_option, has_column, option_view, same_names, seen,
    seen_all, seen_option, views, Duplicate, TableModel, TableSchema, UniqueModel,
};
use crate::server::alter::{no_column, no_column_error};
use crate::server::ddl_plan::{each_resolved, lemma_each_fails};
use crate::server::gateway::{only_opened, GatewayServer};
use crate::server::plan::{
    AssignmentModel, ColumnSet, ConflictModel, InsertConflictAction, SqlExpr, UpdateAssignment,
};
use crate::text::{lower, same_but_for_case, three_texts};
use crate::types::INTERNAL_ROWID_COLUMN;

verus! {

/// A column that is to be given a value, as far as the statement names one.
#[derive(Debug)]
pub struct AssignmentRequest {
    pub column: Result<String, UserError>,
    pub expr: SqlExpr,
}

/// What a [`AssignmentRequest`] says.
pub struct AssignmentAsked {
    pub column: Result<Seq<char>, Report>,
    pub expr: Seq<char>,
}

impl View for AssignmentRequest {
    type V = AssignmentAsked;

    open spec fn view(&self) -> AssignmentAsked {
        AssignmentAsked {
            column: seen_text(self.column),
            expr: self.expr@,
        }
    }
}

/// What rows are to clash in.
#[derive(Debug)]
pub enum ConflictTarget {
    Columns { columns: Vec<String> },
    OnConstraint { name: ObjectName },
}

/// What a [`ConflictTarget`] says.
pub enum ConflictTargetModel {
    Columns { columns: Seq<Seq<char>> },
    OnConstraint { name: Seq<PartModel> },
}

impl View for ConflictTarget {
    type V = ConflictTargetModel;

    open spec fn view(&self) -> ConflictTargetModel {
        match *self {
            ConflictTarget::Columns { columns } => ConflictTargetModel::Columns {
                columns: views(columns@),
            },
            ConflictTarget::OnConstraint { name } => ConflictTargetModel::OnConstraint {
                name: name@,
            },
        }
    }
}

/// What is done where rows clash.
#[derive(Debug)]
pub enum OnConflictAction {
    DoNothing,
    DoUpdate { assignments: Vec<AssignmentRequest>, selection: Option<SqlExpr> },
}

/// What a [`OnConflictAction`] says.
pub enum OnConflictModel {
    DoNothing,
    DoUpdate { assignments: Seq<AssignmentAsked>, selection: Option<Seq<char>> },
}

impl View for OnConflictAction {
    type V = OnConflictModel;

    open spec fn view(&self) -> OnConflictModel {
        match *self {
            OnConflictAction::DoNothing => OnConflictModel::DoNothing,
            OnConflictAction::DoUpdate { assignments, selection } => OnConflictModel::DoUpdate {
                assignments: views(assignments@),
                selection: option_view(selection),
            },
        }
    }
}

/// What a statement says of rows that clash.
#[derive(Debug)]
pub enum OnInsert {
    OnConflict { target: Option<ConflictTarget>, action: OnConflictAction },
    DuplicateKeyUpdate { assignments: Vec<AssignmentRequest> },
    /// Anything that is not supported.
    Other,
}

/// What a [`OnInsert`] says.
pub enum OnInsertModel {
    OnConflict { target: Option<ConflictTargetModel>, action: OnConflictModel },
    DuplicateKeyUpdate { assignments: Seq<AssignmentAsked> },
    Other,
}

impl View for OnInsert {
    type V = OnInsertModel;

    open spec fn view(&self) -> OnInsertModel {
        match *self {
            OnInsert::OnConflict { target, action } => OnInsertModel::OnConflict {
                target: option_view(target),
                action: action@,
            },
            OnInsert::DuplicateKeyUpdate { assignments } => OnInsertModel::DuplicateKeyUpdate {
                assignments: views(assignments@),
            },
            OnInsert::Other => OnInsertModel::Other,
        }
    }
}

/// Keys with one more, unless it is empty or among them.
pub open spec fn with_key(keys: Seq<Seq<Seq<char>>>, columns: Seq<Seq<char>>) -> Seq<
    Seq<Seq<char>>,
> {
    if columns.len() == 0 || keys.contains(columns) {
        keys
    } else {
        keys.push(columns)
    }
}

/// Keys with those of unique constraints.
pub open spec fn with_unique_keys(keys: Seq<Seq<Seq<char>>>, uniques: Seq<UniqueModel>) -> Seq<
    Seq<Seq<char>>,
>
    decreases uniques.len(),
{
    if uniques.len() == 0 {
        keys
    } else {
        with_key(with_unique_keys(keys, uniques.drop_last()), uniques.last().columns)
    }
}

/// Keys with those of unique indexes.
pub open spec fn with_index_keys(keys: Seq<Seq<Seq<char>>>, indexes: Seq<IndexModel>) -> Seq<
    Seq<Seq<char>>,
>
    decreases indexes.len(),
{
    if indexes.len() == 0 {
        keys
    } else if indexes.last().unique {
        with_key(with_index_keys(keys, indexes.drop_last()), indexes.last().column_names)
    } else {
        with_index_keys(keys, indexes.drop_last())
    }
}

/// The keys that rows of a table can clash in: its primary key, its unique constraints, its
/// unique indexes.
pub open spec fn clash_keys(table: TableModel, indexes: Seq<IndexModel>) -> Seq<Seq<Seq<char>>> {
    let start = if table.primary_key != INTERNAL_ROWID_COLUMN@ {
        seq![seq![table.primary_key]]
    } else {
        seq![]
    };
    with_index_keys(with_unique_keys(start, table.unique_constraints), indexes)
}

/// Whether keys have columns and differ from each other.
pub open spec fn proper_keys(keys: Seq<Seq<Seq<char>>>) -> bool {
    keys.no_duplicates() && forall|i: int| 0 <= i < keys.len() ==> (#[trigger] keys[i]).len() > 0
}

/// Rows can clash in a key only once: the keys of a table differ, and each has a column.
pub proof fn law_clash_keys_differ(table: TableModel, indexes: Seq<IndexModel>)
    ensures
        proper_keys(clash_keys(table, indexes)),
{
    let start = if table.primary_key != INTERNAL_ROWID_COLUMN@ {
        seq![seq![table.primary_key]]
    } else {
        seq![]
    };
    lemma_unique_keys(start, table.unique_constraints);
    lemma_index_keys(with_unique_keys(start, table.unique_constraints), indexes);
}

proof fn lemma_unique_keys(keys: Seq<Seq<Seq<char>>>, uniques: Seq<UniqueModel>)
    requires
        proper_keys(keys),
    ensures
        proper_keys(with_unique_keys(keys, uniques)),
    decreases uniques.len(),
{
    if uniques.len() > 0 {
        lemma_unique_keys(keys, uniques.drop_last());
    }
}

proof fn lemma_index_keys(keys: Seq<Seq<Seq<char>>>, indexes: Seq<IndexModel>)
    requires
        proper_keys(keys),
    ensures
        proper_keys(with_index_keys(keys, indexes)),
    decreases indexes.len(),
{
    if indexes.len() > 0 {
        lemma_index_keys(keys, indexes.drop_last());
    }
}

/// Adds a key, unless it is empty or there already.
fn add_key(keys: &mut Vec<ColumnSet>, columns: &Vec<String>)
    ensures
        views(final(keys)@) == with_key(views(old(keys)@), views(columns@)),
{
    if columns.len() == 0 {
        return;
    }
    let ghost before = views(keys@);
    let mut i: usize = 0;
    while i < keys.len()
        invariant
            i <= keys@.len(),
            before == views(keys@),
            *keys == *old(keys),
            forall|k: int| 0 <= k < i ==> before[k] != views(columns@),
        decreases keys@.len() - i,
    {
        if same_names(&keys[i].columns, columns) {
            assert(before[i as int] == views(columns@));
            return;
        }
        i += 1;
    }
    let ghost added = views(columns@);
    keys.push(ColumnSet { columns: duplicate_all(columns) });
    assert(views(keys@) =~= before.push(added));
}

/// The keys that rows of a table can clash in.
pub fn duplicate_key_targets(schema: &TableSchema, indexes: &Vec<IndexCatalog>) -> (keys: Vec<
    ColumnSet,
>)
    ensures
        views(keys@) == clash_keys(schema@, views(indexes@)),
{
    let mut keys: Vec<ColumnSet> = Vec::new();
    if schema.has_user_primary_key() {
        let mut columns: Vec<String> = Vec::new();
        columns.push(schema.primary_key.clone());
        assert(views(columns@) =~= seq![schema.primary_key@]);
        keys.push(ColumnSet { columns });
        assert(views(keys@) =~= seq![seq![schema.primary_key@]]);
    } else {
        assert(views(keys@) =~= Seq::<Seq<Seq<char>>>::empty());
    }
    let ghost start = views(keys@);
    let ghost uniques = schema@.unique_constraints;
    let mut i: usize = 0;
    assert(uniques.take(0) =~= Seq::<UniqueModel>::empty());
    while i < schema.unique_constraints.len()
        invariant
            i <= schema.unique_constraints@.len(),
            uniques == views(schema.unique_constraints@),
            views(keys@) == with_unique_keys(start, uniques.take(i as int)),
        decreases schema.unique_constraints@.len() - i,
    {
        assert(uniques.take(i + 1).drop_last() =~= uniques.take(i as int));
        assert(uniques.take(i + 1).last() == schema.unique_constraints@[i as int]@);
        add_key(&mut keys, &schema.unique_constraints[i].columns);
        i += 1;
    }
    assert(uniques.take(i as int) =~= uniques);
    let ghost second = views(keys@);
    let ghost all = views(indexes@);
    let mut j: usize = 0;
    assert(all.take(0) =~= Seq::<IndexModel>::empty());
    while j < indexes.len()
        invariant
            j <= indexes@.len(),
            all == views(indexes@),
            views(keys@) == with_index_keys(second, all.take(j as int)),
        decreases indexes@.len() - j,
    {
        assert(all.take(j + 1).drop_last() =~= all.take(j as int));
        assert(all.take(j + 1).last() == indexes@[j as int]@);
        if indexes[j].unique {
            add_key(&mut keys, &indexes[j].column_names);
        }
        j += 1;
    }
    assert(all.take(j as int) =~= all);
    keys
}

/// The keys that rows of a table can clash in, with its indexes from the catalog.
pub open spec fn clash_keys_found(contents: Contents, table: TableModel) -> Result<
    Seq<Seq<Seq<char>>>,
    Report,
> {
    match indexes_listed(contents, table.table_id) {
        Err(e) => Err(e),
        Ok(indexes) => Ok(clash_keys(table, indexes)),
    }
}

/// A column that a row that is there gets a new value for: one of the table, and none of those
/// that rows clash in.
pub open spec fn conflict_assignment(
    table: TableModel,
    asked: AssignmentAsked,
    target: Seq<Seq<char>>,
) -> Result<AssignmentModel, Report> {
    match asked.column {
        Err(e) => Err(e),
        Ok(column) => if !has_column(table.columns, column) {
            Err(no_column(column))
        } else if target.contains(column) {
            Err(
                unsupported_report(
                    "ON CONFLICT DO UPDATE cannot update the conflict target columns in fast path"@,
                ),
            )
        } else {
            Ok(AssignmentModel { column, expr: asked.expr })
        },
    }
}

/// A column that a row that is there gets a new value for.
pub fn resolve_insert_conflict_assignment(
    schema: &TableSchema,
    assignment: &AssignmentRequest,
    target_columns: &Vec<String>,
) -> (result: Result<UpdateAssignment, UserError>)
    ensures
        seen(result) == conflict_assignment(schema@, assignment@, views(target_columns@)),
{
    let column = match &assignment.column {
        Err(e) => {
            return Err(e.duplicate());
        },
        Ok(column) => column.clone(),
    };
    if schema.find_column(column.as_str()).is_none() {
        return Err(no_column_error(column.as_str()));
    }
    if contains_name(target_columns, column.as_str()) {
        return Err(
            unsupported(
                "ON CONFLICT DO UPDATE cannot update the conflict target columns in fast path",
            ),
        );
    }
    Ok(UpdateAssignment { column, expr: assignment.expr.duplicate() })
}

/// The columns that a row that is there gets new values for.
pub open spec fn conflict_assignments(
    table: TableModel,
    asked: Seq<AssignmentAsked>,
    target: Seq<Seq<char>>,
) -> Result<Seq<AssignmentModel>, Report> {
    each_resolved(asked, |one: AssignmentAsked| conflict_assignment(table, one, target))
}

fn resolve_assignments(
    schema: &TableSchema,
    assignments: &Vec<AssignmentRequest>,
    target_columns: &Vec<String>,
) -> (result: Result<Vec<UpdateAssignment>, UserError>)
    ensures
        seen_all(result) == conflict_assignments(
            schema@,
            views(assignments@),
            views(target_columns@),
        ),
{
    let ghost all = views(assignments@);
    let ghost resolve = |one: AssignmentAsked|
        conflict_assignment(schema@, one, views(target_columns@));
    let mut found: Vec<UpdateAssignment> = Vec::new();
    let mut i: usize = 0;
    assert(all.take(0) =~= Seq::<AssignmentAsked>::empty());
    assert(views(found@) =~= Seq::<AssignmentModel>::empty());
    while i < assignments.len()
        invariant
            i <= assignments@.len(),
            all == views(assignments@),
            resolve == (|one: AssignmentAsked|
                conflict_assignment(schema@, one, views(target_columns@))),
            each_resolved(all.take(i as int), resolve) == Ok::<Seq<AssignmentModel>, Report>(
                views(found@),
            ),
        decreases assignments@.len() - i,
    {
        assert(all.take(i + 1).drop_last() =~= all.take(i as int));
        assert(all.take(i + 1).last() == assignments@[i as int]@);
        match resolve_insert_conflict_assignment(schema, &assignments[i], target_columns) {
            Err(e) => {
                proof {
                    lemma_each_fails(all, resolve, i + 1);
                }
                return Err(e);
            },
            Ok(one) => {
                let ghost before = views(found@);
                let ghost added = one@;
                found.push(one);
                assert(views(found@) =~= before.push(added));
            },
        }
        i += 1;
    }
    assert(all.take(i as int) =~= all);
    Ok(found)
}

/// A column that an update gives a new value.
pub open spec fn update_assignment(table: TableModel, asked: AssignmentAsked) -> Result<
    AssignmentModel,
    Report,
> {
    match asked.column {
        Err(e) => Err(e),
        Ok(column) => if has_column(table.columns, column) {
            Ok(AssignmentModel { column, expr: asked.expr })
        } else {
            Err(no_column(column))
        },
    }
}

/// A column that an update gives a new value.
pub fn resolve_update_assignment(schema: &TableSchema, assignment: &AssignmentRequest) -> (result:
    Result<UpdateAssignment, UserError>)
    ensures
        seen(result) == update_assignment(schema@, assignment@),
{
    let column = match &assignment.column {
        Err(e) => {
            return Err(e.duplicate());
        },
        Ok(column) => column.clone(),
    };
    if schema.find_column(column.as_str()).is_none() {
        return Err(no_column_error(column.as_str()));
    }
    Ok(UpdateAssignment { column, expr: assignment.expr.duplicate() })
}

/// The first unique constraint with a name, whatever its case.
pub open spec fn constraint_named(uniques: Seq<UniqueModel>, name: Seq<char>) -> Option<UniqueModel>
    decreases uniques.len(),
{
    if uniques.len() == 0 {
        None
    } else if lower(uniques[0].name) == lower(name) {
        Some(uniques[0])
    } else {
        constraint_named(uniques.skip(1), name)
    }
}

/// The columns that rows are to clash in.
pub open spec fn target_columns_of(table: TableModel, target: Option<ConflictTargetModel>) -> Result<
    Seq<Seq<char>>,
    Report,
> {
    match target {
        None => if table.primary_key == INTERNAL_ROWID_COLUMN@ {
            Err(
                unsupported_report(
                    "ON CONFLICT without target requires a user-defined primary key in fast path"@,
                ),
            )
        } else {
            Ok(seq![table.primary_key])
        },
        Some(ConflictTargetModel::Columns { columns }) => if columns.len() == 0 {
            Err(unsupported_report("ON CONFLICT target cannot be empty"@))
        } else {
            Ok(columns)
        },
        Some(ConflictTargetModel::OnConstraint { name }) => match object_name(name) {
            Err(e) => Err(e),
            Ok(text) => match constraint_named(table.unique_constraints, text) {
                None => Err(report("42704"@, "constraint '"@ + text + "' does not exist"@)),
                Some(unique) => if unique.columns.len() == 0 {
                    Err(
                        unsupported_report(
                            "ON CONFLICT ON CONSTRAINT requires constraint with at least one column"@,
                        ),
                    )
                } else {
                    Ok(unique.columns)
                },
            },
        },
    }
}

/// The columns that rows are to clash in.
pub fn conflict_target_columns(schema: &TableSchema, target: &Option<ConflictTarget>) -> (result:
    Result<Vec<String>, UserError>)
    ensures
        seen_all(result) == target_columns_of(schema@, option_view(*target)),
{
    match target {
        None => {
            if !schema.has_user_primary_key() {
                return Err(
                    unsupported(
                        "ON CONFLICT without target requires a user-defined primary key in fast path",
                    ),
                );
            }
            let mut columns: Vec<String> = Vec::new();
            columns.push(schema.primary_key.clone());
            assert(views(columns@) =~= seq![schema.primary_key@]);
            Ok(columns)
        },
        Some(ConflictTarget::Columns { columns }) => {
            if columns.len() == 0 {
                return Err(unsupported("ON CONFLICT target cannot be empty"));
            }
            Ok(duplicate_all(columns))
        },
        Some(ConflictTarget::OnConstraint { name }) => {
            let text = match object_name_to_string(name) {
                Err(e) => {
                    return Err(e);
                },
                Ok(text) => text,
            };
            let ghost all = schema@.unique_constraints;
            let mut i: usize = 0;
            assert(all.skip(0) =~= all);
            while i < schema.unique_constraints.len()
                invariant
                    i <= schema.unique_constraints@.len(),
                    all == views(schema.unique_constraints@),
                    all == schema@.unique_constraints,
                    object_name(name@) == Ok::<Seq<char>, Report>(text@),
                    option_view(*target) == Some(ConflictTargetModel::OnConstraint { name: name@ }),
                    constraint_named(all, text@) == constraint_named(all.skip(i as int), text@),
                decreases schema.unique_constraints@.len() - i,
            {
                assert(all.skip(i as int)[0] == schema.unique_constraints@[i as int]@);
                assert(all.skip(i as int).skip(1) =~= all.skip(i + 1));
                let unique = &schema.unique_constraints[i];
                if same_but_for_case(unique.name.as_str(), text.as_str()) {
                    if unique.columns.len() == 0 {
                        return Err(
                            unsupported(
                                "ON CONFLICT ON CONSTRAINT requires constraint with at least one column",
                            ),
                        );
                    }
                    return Ok(duplicate_all(&unique.columns));
                }
                i += 1;
            }
            Err(
                user_error_text(
                    "42704",
                    three_texts("constraint '", text.as_str(), "' does not exist"),
                ),
            )
        },
    }
}

/// Whether columns are a key of a table: its primary key or those of a unique constraint; where
/// a unique constraint is the primary key, any columns are taken for one.
pub open spec fn is_keyed(table: TableModel, columns: Seq<Seq<char>>) -> bool {
    columns == seq![table.primary_key] || exists|i: int|
        0 <= i < table.unique_constraints.len() && ((
        #[trigger] table.unique_constraints[i]).primary_key || table.unique_constraints[i].columns
            == columns)
}

/// Whether columns are a key of a table.
pub fn target_is_keyed(schema: &TableSchema, columns: &Vec<String>) -> (answer: bool)
    ensures
        answer == is_keyed(schema@, views(columns@)),
{
    let mut key: Vec<String> = Vec::new();
    key.push(schema.primary_key.clone());
    assert(views(key@) =~= seq![schema.primary_key@]);
    if same_names(columns, &key) {
        return true;
    }
    let ghost all = schema@.unique_constraints;
    let mut i: usize = 0;
    while i < schema.unique_constraints.len()
        invariant
            i <= schema.unique_constraints@.len(),
            all == views(schema.unique_constraints@),
            all == schema@.unique_constraints,
            forall|k: int|
                0 <= k < i ==> !(#[trigger] all[k]).primary_key && all[k].columns != views(
                    columns@,
                ),
        decreases schema.unique_constraints@.len() - i,
    {
        assert(all[i as int] == schema.unique_constraints@[i as int]@);
        if schema.unique_constraints[i].primary_key || same_names(
            &schema.unique_constraints[i].columns,
            columns,
        ) {
            return true;
        }
        i += 1;
    }
    false
}

/// Whether columns are all those of a table.
pub open spec fn all_found(table: TableModel, columns: Seq<Seq<char>>) -> bool {
    forall|i: int| 0 <= i < columns.len() ==> has_column(table.columns, #[trigger] columns[i])
}

fn has_all_columns(schema: &TableSchema, columns: &Vec<String>) -> (answer: bool)
    ensures
        answer == all_found(schema@, views(columns@)),
{
    let ghost all = views(columns@);
    let mut i: usize = 0;
    while i < columns.len()
        invariant
            i <= columns@.len(),
            all == views(columns@),
            forall|k: int| 0 <= k < i ==> has_column(schema@.columns, #[trigger] all[k]),
        decreases columns@.len() - i,
    {
        assert(all[i as int] == columns@[i as int]@);
        if schema.find_column(columns[i].as_str()).is_none() {
            return false;
        }
        i += 1;
    }
    true
}

/// What is done with rows that clash.
pub open spec fn conflict_resolved(
    contents: Contents,
    table: TableModel,
    on: Option<OnInsertModel>,
    ignore: bool,
    replace_into: bool,
) -> Result<Option<ConflictModel>, Report> {
    if replace_into {
        match clash_keys_found(contents, table) {
            Err(e) => Err(e),
            Ok(target_column_sets) => if target_column_sets.len() == 0 {
                Ok(None)
            } else {
                Ok(Some(ConflictModel::ReplaceAnyUnique { target_column_sets }))
            },
        }
    } else if ignore {
        match clash_keys_found(contents, table) {
            Err(e) => Err(e),
            Ok(target_column_sets) => if target_column_sets.len() == 0 {
                Ok(None)
            } else {
                Ok(Some(ConflictModel::DoNothingAnyUnique { target_column_sets }))
            },
        }
    } else {
        match on {
            None => Ok(None),
            Some(OnInsertModel::Other) => Err(
                unsupported_report(
                    "only ON CONFLICT and ON DUPLICATE KEY UPDATE are supported in fast path"@,
                ),
            ),
            Some(OnInsertModel::OnConflict { target, action }) => match target_columns_of(
                table,
                target,
            ) {
                Err(e) => Err(e),
                Ok(target_columns) => match on_conflict_action(table, target_columns, action) {
                    Err(e) => Err(e),
                    Ok(found) => if !all_found(table, target_columns) {
                        Err(unsupported_report("upsert target column not found"@))
                    } else if !is_keyed(table, target_columns) {
                        Err(
                            unsupported_report(
                                "upsert target must match the primary key or a unique constraint"@,
                            ),
                        )
                    } else {
                        Ok(Some(found))
                    },
                },
            },
            Some(OnInsertModel::DuplicateKeyUpdate { assignments }) => match conflict_assignments(
                table,
                assignments,
                seq![],
            ) {
                Err(e) => Err(e),
                Ok(found) => match clash_keys_found(contents, table) {
                    Err(e) => Err(e),
                    Ok(target_column_sets) => if target_column_sets.len() == 0 {
                        Err(
                            unsupported_report(
                                "ON DUPLICATE KEY UPDATE requires a primary key, unique constraint, or unique index"@,
                            ),
                        )
                    } else if !all_found(table, target_column_sets[0]) {
                        Err(unsupported_report("upsert target column not found"@))
                    } else {
                        Ok(
                            Some(
                                ConflictModel::DoUpdateAnyUnique {
                                    target_column_sets,
                                    assignments: found,
                                },
                            ),
                        )
                    },
                },
            },
        }
    }
}

/// Whether the keys of a table, its indexes among them, have to be known to say what is done with
/// rows that clash.
pub open spec fn reads_keys(
    table: TableModel,
    on: Option<OnInsertModel>,
    ignore: bool,
    replace_into: bool,
) -> bool {
    replace_into || ignore || (on matches Some(OnInsertModel::DuplicateKeyUpdate { assignments })
        && conflict_assignments(table, assignments, seq![]) is Ok)
}

/// What is done with rows that clash in given columns.
pub open spec fn on_conflict_action(
    table: TableModel,
    target_columns: Seq<Seq<char>>,
    action: OnConflictModel,
) -> Result<ConflictModel, Report> {
    match action {
        OnConflictModel::DoNothing => Ok(ConflictModel::DoNothing),
        OnConflictModel::DoUpdate { assignments, selection } => match conflict_assignments(
            table,
            assignments,
            target_columns,
        ) {
            Err(e) => Err(e),
            Ok(found) => Ok(
                ConflictModel::DoUpdate { target_columns, assignments: found, selection },
            ),
        },
    }
}

impl<S: KvStore> GatewayServer<S> {
    /// The keys that rows of a table can clash in.
    pub fn mysql_duplicate_key_targets(&mut self, schema: &TableSchema) -> (result: Result<
        Vec<ColumnSet>,
        UserError,
    >)
        ensures
            final(self).reliable() == old(self).reliable(),
            final(self).same_sessions(old(self)),
            not_internal(result) || old(self).reliable() ==> only_opened(
                old(self).contents(),
                final(self).contents(),
            ) && seen_all(result) == clash_keys_found(
                bootstrapped(old(self).contents()),
                schema@,
            ),
    {
        match self.catalog.list_indexes_for_table(schema.table_id) {
            Err(e) => Err(e),
            Ok(indexes) => Ok(duplicate_key_targets(schema, &indexes)),
        }
    }

    /// What is done with rows that clash. The indexes of the table are read only where any key may
    /// be the one that rows clash in.
    #[verifier::rlimit(40)]
    pub fn resolve_insert_on_conflict(
        &mut self,
        schema: &TableSchema,
        on: &Option<OnInsert>,
        ignore: bool,
        replace_into: bool,
    ) -> (result: Result<Option<InsertConflictAction>, UserError>)
        ensures
            final(self).reliable() == old(self).reliable(),
            final(self).same_sessions(old(self)),
            !reads_keys(schema@, option_view(*on), ignore, replace_into) ==> final(self).contents()
                == old(self).contents(),
            not_internal(result) || old(self).reliable() || !reads_keys(
                schema@,
                option_view(*on),
                ignore,
                replace_into,
            ) ==> only_opened(
                old(self).contents(),
                final(self).contents(),
            ) && seen_option(result) == conflict_resolved(
                bootstrapped(old(self).contents()),
                schema@,
                option_view(*on),
                ignore,
                replace_into,
            ),
    {
        if replace_into || ignore {
            let target_column_sets = match self.mysql_duplicate_key_targets(schema) {
                Err(e) => {
                    return Err(e);
                },
                Ok(keys) => keys,
            };
            if target_column_sets.len() == 0 {
                return Ok(None);
            }
            if replace_into {
                return Ok(Some(InsertConflictAction::ReplaceAnyUnique { target_column_sets }));
            }
            return Ok(Some(InsertConflictAction::DoNothingAnyUnique { target_column_sets }));
        }
        match on {
            None => Ok(None),
            Some(OnInsert::Other) => Err(
                unsupported(
                    "only ON CONFLICT and ON DUPLICATE KEY UPDATE are supported in fast path",
                ),
            ),
            Some(OnInsert::OnConflict { target, action }) => {
                let target_columns = match conflict_target_columns(schema, target) {
                    Err(e) => {
                        return Err(e);
                    },
                    Ok(columns) => columns,
                };
                let found = match action {
                    OnConflictAction::DoNothing => InsertConflictAction::DoNothing,
                    OnConflictAction::DoUpdate { assignments, selection } => {
                        match resolve_assignments(schema, assignments, &target_columns) {
                            Err(e) => {
                                return Err(e);
                            },
                            Ok(assignments) => InsertConflictAction::DoUpdate {
                                target_columns: duplicate_all(&target_columns),
                                assignments,
                                selection: duplicate_option(selection),
                            },
                        }
                    },
                };
                if !has_all_columns(schema, &target_columns) {
                    return Err(unsupported("upsert target column not found"));
                }
                if !target_is_keyed(schema, &target_columns) {
                    return Err(
                        unsupported(
                            "upsert target must match the primary key or a unique constraint",
                        ),
                    );
                }
                Ok(Some(found))
            },
            Some(OnInsert::DuplicateKeyUpdate { assignments }) => {
                let none: Vec<String> = Vec::new();
                assert(views(none@) =~= Seq::<Seq<char>>::empty());
                let found = match resolve_assignments(schema, assignments, &none) {
                    Err(e) => {
                        return Err(e);
                    },
                    Ok(found) => found,
                };
                let target_column_sets = match self.mysql_duplicate_key_targets(schema) {
                    Err(e) => {
                        return Err(e);
                    },
                    Ok(keys) => keys,
                };
                if target_column_sets.len() == 0 {
                    return Err(
                        unsupported(
                            "ON DUPLICATE KEY UPDATE requires a primary key, unique constraint, or unique index",
                        ),
                    );
                }
                assert(views(target_column_sets@)[0] == target_column_sets@[0]@);
                if !has_all_columns(schema, &target_column_sets[0].columns) {
                    return Err(unsupported("upsert target column not found"));
                }
                Ok(
                    Some(
                        InsertConflictAction::DoUpdateAnyUnique {
                            target_column_sets,
                            assignments: found,
                        },
                    ),
                )
            },
        }
    }
}

} // verus!
