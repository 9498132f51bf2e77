//! Execution of plans on the catalog: what each plan does there, what work on stored data goes
//! with it, and how the client is answered.
use vstd::prelude::*;

use crate::catalog::model::{
    bootstrapped, database_created, database_dropped, database_found, epoch_bumped, index_dropped,
    indexes_listed, law_bootstrap_is_stable, no_database, no_schema, schema_created, schema_dropped,
    schema_found, table_dropped, table_found, table_stored, tables_listed, view_dropped,
    view_stored, views_listed,
};
use crate::catalog::types::{
    IndexCatalog, IndexModel, TableCatalog, TableEntry, ViewCatalog, ViewModel,
};
use crate::codec::{index_table_prefix, indexes_prefix, table_data_prefix, table_prefix};
use crate::error::{not_internal, report, user_error_text, Report, UserError};
use crate::mem_store::{Contents, KvStore};
use crate::mode::GatewayMode;
use crate::response::{
    command_complete, command_complete_rows, completed, completed_rows, multi_text_row_response,
    text_rows, Response, ResponseModel,
};
use crate::schema::{views, ColumnModel, ColumnSchema, Duplicate, TableModel, TableSchema};
use crate::server::gateway::{resolve_scoped_name, scoped_name, GatewayServer};
use crate::server::plan::{
    IndexPlan, IndexPlanModel, PlanModel, QualifiedModel, QualifiedName, QueryPlan, ScopedModel,
    ScopedTable, TextRow,
};
use crate::server::sequences::{
    auto_increment_column, mysql_auto_increment_column, nextval_name, nextval_sequence_name,
};
use crate::text::three_texts;

verus! {

/// A piece of work on stored data that goes with a plan.
#[derive(Debug)]
pub enum StorageAction {
    /// Forget what is known of a database.
    ForgetCatalog { database_name: String },
    /// Take the rows of a table away.
    ClearRows { table_id: u32, table_epoch: u64 },
    /// Take the versions of the rows of a table away.
    ClearRowVersions { table_id: u32, table_epoch: u64 },
    /// Take the descriptions of the column chunks of a table away.
    ClearChunkMeta { table_id: u32, table_epoch: u64 },
    /// Take the column chunks of a table away.
    ClearChunkColumns { table_id: u32, table_epoch: u64 },
    /// Take the statistics of a table away.
    ClearStatistics { table_id: u32, table_epoch: u64 },
    /// Take the entries of an index away.
    ClearIndex { index_id: u32 },
    /// Take what is kept under keys with a prefix away.
    ClearPrefix { prefix: Vec<u8> },
    /// Take what is kept under keys with a prefix and a text in them away.
    ClearPrefixHolding { prefix: Vec<u8>, text: String },
    /// Make a sequence.
    CreateSequence {
        database_name: String,
        schema_name: String,
        sequence_name: String,
        if_not_exists: bool,
        start: i64,
        increment: i64,
    },
    /// Make an index and fill it.
    CreateIndex {
        database_name: String,
        schema_name: String,
        table_name: String,
        index: IndexPlan,
        if_not_exists: bool,
    },
    /// Let a sequence start anew.
    ResetSequence { database_name: String, schema_name: String, sequence: String },
    /// Make the chunks and statistics of a table anew.
    RefreshStatistics { database_name: String, schema_name: String, schema: TableSchema },
}

/// What a [`StorageAction`] says.
pub enum ActionModel {
    ForgetCatalog { database_name: Seq<char> },
    ClearRows { table_id: u32, table_epoch: u64 },
    ClearRowVersions { table_id: u32, table_epoch: u64 },
    ClearChunkMeta { table_id: u32, table_epoch: u64 },
    ClearChunkColumns { table_id: u32, table_epoch: u64 },
    ClearStatistics { table_id: u32, table_epoch: u64 },
    ClearIndex { index_id: u32 },
    ClearPrefix { prefix: Seq<u8> },
    ClearPrefixHolding { prefix: Seq<u8>, text: Seq<char> },
    CreateSequence {
        database_name: Seq<char>,
        schema_name: Seq<char>,
        sequence_name: Seq<char>,
        if_not_exists: bool,
        start: i64,
        increment: i64,
    },
    CreateIndex {
        database_name: Seq<char>,
        schema_name: Seq<char>,
        table_name: Seq<char>,
        index: IndexPlanModel,
        if_not_exists: bool,
    },
    ResetSequence { database_name: Seq<char>, schema_name: Seq<char>, sequence: Seq<char> },
    RefreshStatistics { database_name: Seq<char>, schema_name: Seq<char>, schema: TableModel },
}

impl View for StorageAction {
    type V = ActionModel;

    open spec fn view(&self) -> ActionModel {
        match *self {
            StorageAction::ForgetCatalog { database_name } => ActionModel::ForgetCatalog {
                database_name: database_name@,
            },
            StorageAction::ClearRows { table_id, table_epoch } => ActionModel::ClearRows {
                table_id,
                table_epoch,
            },
            StorageAction::ClearRowVersions {
                table_id,
                table_epoch,
            } => ActionModel::ClearRowVersions {
                table_id,
                table_epoch,
            },
            StorageAction::ClearChunkMeta {
                table_id,
                table_epoch,
            } => ActionModel::ClearChunkMeta {
                table_id,
                table_epoch,
            },
            StorageAction::ClearChunkColumns {
                table_id,
                table_epoch,
            } => ActionModel::ClearChunkColumns {
                table_id,
                table_epoch,
            },
            StorageAction::ClearStatistics {
                table_id,
                table_epoch,
            } => ActionModel::ClearStatistics {
                table_id,
                table_epoch,
            },
            StorageAction::ClearIndex { index_id } => ActionModel::ClearIndex {
                index_id,
            },
            StorageAction::ClearPrefix { prefix } => ActionModel::ClearPrefix {
                prefix: prefix@,
            },
            StorageAction::ClearPrefixHolding { prefix, text } => ActionModel::ClearPrefixHolding {
                prefix: prefix@,
                text: text@,
            },
            StorageAction::CreateSequence {
                database_name,
                schema_name,
                sequence_name,
                if_not_exists,
                start,
                increment,
            } => ActionModel::CreateSequence {
                database_name: database_name@,
                schema_name: schema_name@,
                sequence_name: sequence_name@,
                if_not_exists,
                start,
                increment,
            },
            StorageAction::CreateIndex {
                database_name,
                schema_name,
                table_name,
                index,
                if_not_exists,
            } => ActionModel::CreateIndex {
                database_name: database_name@,
                schema_name: schema_name@,
                table_name: table_name@,
                index: index@,
                if_not_exists,
            },
            StorageAction::ResetSequence {
                database_name,
                schema_name,
                sequence,
            } => ActionModel::ResetSequence {
                database_name: database_name@,
                schema_name: schema_name@,
                sequence: sequence@,
            },
            StorageAction::RefreshStatistics {
                database_name,
                schema_name,
                schema,
            } => ActionModel::RefreshStatistics {
                database_name: database_name@,
                schema_name: schema_name@,
                schema: schema@,
            },
        }
    }
}

/// How far a plan has come: the work that goes with it so far, what the store holds, and the
/// error that ended it.
pub struct Progress {
    pub actions: Seq<ActionModel>,
    pub contents: Contents,
    pub error: Option<Report>,
}

/// A start without work.
pub open spec fn starting(contents: Contents) -> Progress {
    Progress { actions: seq![], contents, error: None }
}

/// Step after step, up to the first error.
pub open spec fn stepped<T>(
    start: Progress,
    items: Seq<T>,
    step: spec_fn(Progress, T) -> Progress,
) -> Progress
    decreases items.len(),
{
    if items.len() == 0 {
        start
    } else {
        let before = stepped(start, items.drop_last(), step);
        if before.error is Some {
            before
        } else {
            step(before, items.last())
        }
    }
}

/// After an error nothing more is done.
proof fn lemma_error_ends<T>(
    start: Progress,
    items: Seq<T>,
    step: spec_fn(Progress, T) -> Progress,
    from: int,
)
    requires
        0 <= from <= items.len(),
        stepped(start, items.take(from), step).error is Some,
    ensures
        stepped(start, items, step) == stepped(start, items.take(from), step),
    decreases items.len() - from,
{
    if from == items.len() {
        assert(items.take(from) =~= items);
    } else {
        assert(items.take(from + 1).drop_last() =~= items.take(from));
        lemma_error_ends(start, items, step, from + 1);
    }
}

/// Progress that ends with an error.
pub open spec fn failed(progress: Progress, contents: Contents, error: Report) -> Progress {
    Progress { contents, error: Some(error), ..progress }
}

/// Progress with more work.
pub open spec fn with_work(
    progress: Progress,
    contents: Contents,
    actions: Seq<ActionModel>,
) -> Progress {
    Progress { actions: progress.actions + actions, contents, ..progress }
}

/// The error of an object of a schema that is not there.
pub open spec fn no_object(kind: Seq<char>, schema_name: Seq<char>, name: Seq<char>) -> Report {
    report("42P01"@, kind + " '"@ + schema_name + "."@ + name + "' does not exist"@)
}

/// Makes the error of an object of a schema that is not there.
pub fn no_object_error(kind: &str, schema_name: &str, name: &str) -> (error: UserError)
    ensures
        error@ == no_object(kind@, schema_name@, name@),
{
    let mut message = three_texts(kind, " '", schema_name);
    message.push_str(".");
    message.push_str(name);
    message.push_str("' does not exist");
    user_error_text("42P01", message)
}

/// The work that takes the entries of the indexes of a table away.
pub open spec fn index_clearing(
    indexes: Seq<IndexModel>,
    database_name: Seq<char>,
    schema_name: Seq<char>,
    table_name: Seq<char>,
) -> Seq<ActionModel> {
    indexes.map_values(
        |index: IndexModel| ActionModel::ClearIndex { index_id: index.index_id },
    ).push(
        ActionModel::ClearPrefix {
            prefix: indexes_prefix(database_name, schema_name, table_name),
        },
    )
}

/// What taking the index entries of a table away comes to: the table may be gone.
pub open spec fn index_data_cleared(
    progress: Progress,
    database_name: Seq<char>,
    schema_name: Seq<char>,
    table_name: Seq<char>,
) -> Progress {
    let opened = bootstrapped(progress.contents);
    match table_found(opened, database_name, schema_name, table_name) {
        Err(e) => failed(progress, opened, e),
        Ok(None) => with_work(
            progress,
            opened,
            index_clearing(seq![], database_name, schema_name, table_name),
        ),
        Ok(Some(table)) => match indexes_listed(opened, table.schema.table_id) {
            Err(e) => failed(progress, opened, e),
            Ok(indexes) => with_work(
                progress,
                opened,
                index_clearing(indexes, database_name, schema_name, table_name),
            ),
        },
    }
}

/// The work that takes what is derived from the rows of a table away.
pub open spec fn derived_clearing(table_id: u32, table_epoch: u64) -> Seq<ActionModel> {
    seq![
        ActionModel::ClearChunkMeta { table_id, table_epoch },
        ActionModel::ClearChunkColumns { table_id, table_epoch },
        ActionModel::ClearStatistics { table_id, table_epoch },
    ]
}

/// The work that takes all that is kept of a table away.
pub open spec fn table_clearing(
    table: TableModel,
    database_name: Seq<char>,
    schema_name: Seq<char>,
    table_name: Seq<char>,
) -> Seq<ActionModel> {
    seq![
        ActionModel::ForgetCatalog { database_name },
        ActionModel::ClearRows { table_id: table.table_id, table_epoch: table.table_epoch },
        ActionModel::ClearRowVersions { table_id: table.table_id, table_epoch: table.table_epoch },
    ] + derived_clearing(table.table_id, table.table_epoch) + seq![
        ActionModel::ClearPrefix {
            prefix: table_prefix(database_name, schema_name, table_name),
        },
    ]
}

/// What dropping one table comes to.
pub open spec fn one_table_dropped(
    progress: Progress,
    database_name: Seq<char>,
    name: QualifiedModel,
    if_exists: bool,
) -> Progress {
    let opened = bootstrapped(progress.contents);
    match table_found(opened, database_name, name.schema_name, name.name) {
        Err(e) => failed(progress, opened, e),
        Ok(None) => if if_exists {
            Progress { contents: opened, ..progress }
        } else {
            failed(progress, opened, no_object("table"@, name.schema_name, name.name))
        },
        Ok(Some(table)) => {
            let cleared = index_data_cleared(
                Progress { contents: opened, ..progress },
                database_name,
                name.schema_name,
                name.name,
            );
            if cleared.error is Some {
                cleared
            } else {
                let (dropped, after) = table_dropped(
                    cleared.contents,
                    database_name,
                    name.schema_name,
                    name.name,
                );
                match dropped {
                    Err(e) => failed(cleared, after, e),
                    Ok(_) => with_work(
                        cleared,
                        after,
                        table_clearing(table.schema, database_name, name.schema_name, name.name),
                    ),
                }
            }
        },
    }
}

/// The step of a plan that drops tables.
pub open spec fn dropping_tables(database_name: Seq<char>, if_exists: bool) -> spec_fn(
    Progress,
    QualifiedModel,
) -> Progress {
    |progress: Progress, name: QualifiedModel|
        one_table_dropped(progress, database_name, name, if_exists)
}

/// What dropping one index of a database comes to.
pub open spec fn one_index_dropped(
    progress: Progress,
    database_name: Seq<char>,
    database_id: u32,
    name: QualifiedModel,
    if_exists: bool,
) -> Progress {
    let opened = bootstrapped(progress.contents);
    match schema_found(opened, database_id, name.schema_name) {
        Err(e) => failed(progress, opened, e),
        Ok(None) => if if_exists {
            Progress { contents: opened, ..progress }
        } else {
            failed(progress, opened, no_schema(name.schema_name))
        },
        Ok(Some(schema)) => {
            let (dropped, after) = index_dropped(opened, database_id, schema.schema_id, name.name);
            match dropped {
                Err(e) => failed(progress, after, e),
                Ok(None) => if if_exists {
                    Progress { contents: after, ..progress }
                } else {
                    failed(
                        progress,
                        after,
                        report("42P01"@, "index '"@ + name.name + "' does not exist"@),
                    )
                },
                Ok(Some(index)) => with_work(
                    progress,
                    after,
                    seq![
                        ActionModel::ClearIndex { index_id: index.index_id },
                        ActionModel::ClearPrefixHolding {
                            prefix: indexes_prefix(
                                database_name,
                                name.schema_name,
                                index.table_name,
                            ),
                            text: "/"@ + name.name + "/"@,
                        },
                    ],
                ),
            }
        },
    }
}

/// The step of a plan that drops indexes.
pub open spec fn dropping_indexes(
    database_name: Seq<char>,
    database_id: u32,
    if_exists: bool,
) -> spec_fn(Progress, QualifiedModel) -> Progress {
    |progress: Progress, name: QualifiedModel|
        one_index_dropped(progress, database_name, database_id, name, if_exists)
}

/// What dropping one view comes to.
pub open spec fn one_view_dropped(
    progress: Progress,
    database_name: Seq<char>,
    name: QualifiedModel,
    if_exists: bool,
) -> Progress {
    let (dropped, after) = view_dropped(
        progress.contents,
        database_name,
        name.schema_name,
        name.name,
    );
    match dropped {
        Err(e) => failed(progress, after, e),
        Ok(None) => if if_exists {
            Progress { contents: after, ..progress }
        } else {
            failed(progress, after, no_object("view"@, name.schema_name, name.name))
        },
        Ok(Some(_)) => with_work(
            progress,
            after,
            seq![ActionModel::ForgetCatalog { database_name }],
        ),
    }
}

/// The step of a plan that drops views.
pub open spec fn dropping_views(database_name: Seq<char>, if_exists: bool) -> spec_fn(
    Progress,
    QualifiedModel,
) -> Progress {
    |progress: Progress, name: QualifiedModel|
        one_view_dropped(progress, database_name, name, if_exists)
}

/// What dropping the table of a schema that goes comes to.
pub open spec fn member_table_dropped(
    progress: Progress,
    database_name: Seq<char>,
    schema_name: Seq<char>,
    table: TableEntry,
) -> Progress {
    if table.schema_name != schema_name {
        progress
    } else {
        let cleared = index_data_cleared(
            progress,
            database_name,
            schema_name,
            table.table_name,
        );
        if cleared.error is Some {
            cleared
        } else {
            let (dropped, after) = table_dropped(
                cleared.contents,
                database_name,
                schema_name,
                table.table_name,
            );
            match dropped {
                Err(e) => failed(cleared, after, e),
                Ok(_) => with_work(
                    cleared,
                    after,
                    seq![ActionModel::ForgetCatalog { database_name }],
                ),
            }
        }
    }
}

/// What dropping the view of a schema that goes comes to.
pub open spec fn member_view_dropped(
    progress: Progress,
    database_name: Seq<char>,
    schema_name: Seq<char>,
    view: ViewModel,
) -> Progress {
    if view.schema_name != schema_name {
        progress
    } else {
        let (dropped, after) = view_dropped(
            progress.contents,
            database_name,
            schema_name,
            view.view_name,
        );
        match dropped {
            Err(e) => failed(progress, after, e),
            Ok(None) => Progress { contents: after, ..progress },
            Ok(Some(_)) => with_work(
                progress,
                after,
                seq![ActionModel::ForgetCatalog { database_name }],
            ),
        }
    }
}

/// The step that drops the tables of a schema.
pub open spec fn dropping_member_tables(
    database_name: Seq<char>,
    schema_name: Seq<char>,
) -> spec_fn(Progress, TableEntry) -> Progress {
    |progress: Progress, table: TableEntry|
        member_table_dropped(progress, database_name, schema_name, table)
}

/// The step that drops the views of a schema.
pub open spec fn dropping_member_views(
    database_name: Seq<char>,
    schema_name: Seq<char>,
) -> spec_fn(Progress, ViewModel) -> Progress {
    |progress: Progress, view: ViewModel|
        member_view_dropped(progress, database_name, schema_name, view)
}

/// What dropping one schema comes to: its tables and its views go with it.
pub open spec fn one_schema_dropped(
    progress: Progress,
    database_name: Seq<char>,
    schema_name: Seq<char>,
    if_exists: bool,
) -> Progress {
    let opened = bootstrapped(progress.contents);
    match tables_listed(opened, database_name) {
        Err(e) => failed(progress, opened, e),
        Ok(tables) => {
            let bare = stepped(
                Progress { contents: opened, ..progress },
                tables,
                dropping_member_tables(database_name, schema_name),
            );
            if bare.error is Some {
                bare
            } else {
                let reopened = bootstrapped(bare.contents);
                match views_listed(reopened, database_name) {
                    Err(e) => failed(bare, reopened, e),
                    Ok(found) => {
                        let empty = stepped(
                            Progress { contents: reopened, ..bare },
                            found,
                            dropping_member_views(database_name, schema_name),
                        );
                        if empty.error is Some {
                            empty
                        } else {
                            let (dropped, after) = schema_dropped(
                                empty.contents,
                                database_name,
                                schema_name,
                            );
                            match dropped {
                                Err(e) => failed(empty, after, e),
                                Ok(None) => if if_exists {
                                    Progress { contents: after, ..empty }
                                } else {
                                    failed(empty, after, no_schema(schema_name))
                                },
                                Ok(Some(_)) => Progress { contents: after, ..empty },
                            }
                        }
                    },
                }
            }
        },
    }
}

/// The step of a plan that drops schemas.
pub open spec fn dropping_schemas(database_name: Seq<char>, if_exists: bool) -> spec_fn(
    Progress,
    Seq<char>,
) -> Progress {
    |progress: Progress, name: Seq<char>|
        one_schema_dropped(progress, database_name, name, if_exists)
}

/// What dropping one database comes to.
pub open spec fn one_database_dropped(
    progress: Progress,
    database_name: Seq<char>,
    if_exists: bool,
) -> Progress {
    let (dropped, after) = database_dropped(progress.contents, database_name);
    match dropped {
        Err(e) => failed(progress, after, e),
        Ok(found) => if found is None && !if_exists {
            failed(progress, after, no_database(database_name))
        } else {
            with_work(progress, after, seq![ActionModel::ForgetCatalog { database_name }])
        },
    }
}

/// The step of a plan that drops databases.
pub open spec fn dropping_databases(if_exists: bool) -> spec_fn(Progress, Seq<char>) -> Progress {
    |progress: Progress, name: Seq<char>| one_database_dropped(progress, name, if_exists)
}

/// The epoch before the one that a table is in; the first one has none before it.
pub open spec fn old_epoch(table_epoch: u64) -> u64 {
    if table_epoch > 2 {
        (table_epoch - 1) as u64
    } else {
        1
    }
}

/// The work that lets the sequence of a table start anew, where it has one.
pub open spec fn sequence_reset(
    database_name: Seq<char>,
    schema_name: Seq<char>,
    table: TableModel,
) -> Seq<ActionModel> {
    match auto_increment_column(table.columns) {
        Some(column) => match column.default {
            Some(text) => match nextval_name(text) {
                Some(sequence) => seq![
                    ActionModel::ResetSequence { database_name, schema_name, sequence },
                ],
                None => seq![],
            },
            None => seq![],
        },
        None => seq![],
    }
}

/// What emptying one table comes to: it goes into its next epoch, and what was kept of the one
/// before goes.
pub open spec fn one_table_truncated(
    progress: Progress,
    mode: GatewayMode,
    database_name: Seq<char>,
    table: ScopedModel,
) -> Progress {
    let name = table.schema.table_name;
    let (bumped, after) = epoch_bumped(
        progress.contents,
        database_name,
        table.schema_name,
        name,
    );
    match bumped {
        Err(e) => failed(progress, after, e),
        Ok(entry) => {
            let cleared = index_data_cleared(
                with_work(
                    progress,
                    after,
                    seq![ActionModel::ForgetCatalog { database_name }] + derived_clearing(
                        entry.schema.table_id,
                        old_epoch(entry.schema.table_epoch),
                    ) + seq![
                        ActionModel::ClearPrefix {
                            prefix: table_prefix(database_name, table.schema_name, name),
                        },
                    ],
                ),
                database_name,
                table.schema_name,
                name,
            );
            if cleared.error is Some || mode == GatewayMode::Postgres {
                cleared
            } else {
                with_work(
                    cleared,
                    cleared.contents,
                    sequence_reset(database_name, table.schema_name, table.schema),
                )
            }
        },
    }
}

/// The step of a plan that empties tables.
pub open spec fn truncating(mode: GatewayMode, database_name: Seq<char>) -> spec_fn(
    Progress,
    ScopedModel,
) -> Progress {
    |progress: Progress, table: ScopedModel|
        one_table_truncated(progress, mode, database_name, table)
}

/// The work for a column of a new table: its sequence, where it takes its values from one.
pub open spec fn column_sequenced(
    progress: Progress,
    database_name: Seq<char>,
    schema_name: Seq<char>,
    start: i64,
    column: ColumnModel,
) -> Progress {
    match column.default {
        Some(text) => match nextval_name(text) {
            Some(sequence) => match scoped_name(schema_name, sequence) {
                Err(e) => failed(progress, progress.contents, e),
                Ok((sequence_schema, sequence_name)) => with_work(
                    progress,
                    progress.contents,
                    seq![
                        ActionModel::CreateSequence {
                            database_name,
                            schema_name: sequence_schema,
                            sequence_name,
                            if_not_exists: true,
                            start,
                            increment: 1,
                        },
                    ],
                ),
            },
            None => progress,
        },
        None => progress,
    }
}

/// The step that gives the columns of a new table their sequences.
pub open spec fn sequencing(
    database_name: Seq<char>,
    schema_name: Seq<char>,
    start: i64,
) -> spec_fn(Progress, ColumnModel) -> Progress {
    |progress: Progress, column: ColumnModel|
        column_sequenced(progress, database_name, schema_name, start, column)
}

/// The work that gives a new table its indexes.
pub open spec fn indexing(
    database_name: Seq<char>,
    schema_name: Seq<char>,
    table_name: Seq<char>,
    indexes: Seq<IndexPlanModel>,
) -> Seq<ActionModel> {
    indexes.map_values(
        |index: IndexPlanModel|
            ActionModel::CreateIndex {
                database_name,
                schema_name,
                table_name,
                index,
                if_not_exists: true,
            },
    )
}

/// What making a table comes to.
pub open spec fn table_created(
    contents: Contents,
    database_name: Seq<char>,
    schema_name: Seq<char>,
    table: TableModel,
    auto_increment_start: Option<i64>,
    indexes: Seq<IndexPlanModel>,
) -> Progress {
    let (stored, after) = table_stored(contents, database_name, schema_name, table);
    match stored {
        Err(e) => failed(starting(contents), after, e),
        Ok(_) => {
            let sequenced = stepped(
                with_work(
                    starting(contents),
                    after,
                    seq![ActionModel::ForgetCatalog { database_name }],
                ),
                table.columns,
                sequencing(
                    database_name,
                    schema_name,
                    match auto_increment_start {
                        Some(start) => start,
                        None => 1,
                    },
                ),
            );
            if sequenced.error is Some {
                sequenced
            } else {
                with_work(
                    sequenced,
                    sequenced.contents,
                    indexing(database_name, schema_name, table.table_name, indexes),
                )
            }
        },
    }
}

/// The work that makes the statistics of tables anew.
pub open spec fn refreshing(database_name: Seq<char>, tables: Seq<ScopedModel>) -> Seq<ActionModel> {
    tables.map_values(
        |table: ScopedModel|
            ActionModel::RefreshStatistics {
                database_name,
                schema_name: table.schema_name,
                schema: table.schema,
            },
    ).push(ActionModel::ForgetCatalog { database_name })
}

/// What a plan has done once it is through: the answer to the client.
pub enum PlanEnd {
    Answered(ResponseModel),
    Rows,
}

/// What executing a plan comes to: how far it gets, and the answer where it gets through.
pub open spec fn executed(contents: Contents, mode: GatewayMode, plan: PlanModel) -> (
    Progress,
    PlanEnd,
) {
    let start = starting(contents);
    match plan {
        PlanModel::Noop { tag } => (start, PlanEnd::Answered(completed(tag))),
        PlanModel::CreateDatabase { database_name, if_not_exists } => {
            let (made, after) = database_created(contents, database_name, if_not_exists);
            (
                match made {
                    Err(e) => failed(start, after, e),
                    Ok(_) => Progress { contents: after, ..start },
                },
                PlanEnd::Answered(completed("CREATE DATABASE"@)),
            )
        },
        PlanModel::CreateSchema { database_name, schema_name, if_not_exists } => {
            let (made, after) = schema_created(
                contents,
                database_name,
                schema_name,
                if_not_exists,
            );
            (
                match made {
                    Err(e) => failed(start, after, e),
                    Ok(_) => Progress { contents: after, ..start },
                },
                PlanEnd::Answered(completed("CREATE SCHEMA"@)),
            )
        },
        PlanModel::CreateTable {
            database_name,
            schema_name,
            schema,
            auto_increment_start,
            indexes,
        } => (
            table_created(
                contents,
                database_name,
                schema_name,
                schema,
                auto_increment_start,
                indexes,
            ),
            PlanEnd::Answered(completed("CREATE TABLE"@)),
        ),
        PlanModel::CreateSequence {
            database_name,
            schema_name,
            sequence_name,
            if_not_exists,
            start: first,
            increment,
        } => (
            with_work(
                start,
                contents,
                seq![
                    ActionModel::CreateSequence {
                        database_name,
                        schema_name,
                        sequence_name,
                        if_not_exists,
                        start: first,
                        increment,
                    },
                ],
            ),
            PlanEnd::Answered(completed("CREATE SEQUENCE"@)),
        ),
        PlanModel::CreateView {
            database_name,
            schema_name,
            view_name,
            definition,
            or_replace,
            if_not_exists,
        } => {
            let (made, after) = view_stored(
                contents,
                database_name,
                schema_name,
                view_name,
                definition,
                or_replace,
                if_not_exists,
            );
            (
                match made {
                    Err(e) => failed(start, after, e),
                    Ok(_) => with_work(
                        start,
                        after,
                        seq![ActionModel::ForgetCatalog { database_name }],
                    ),
                },
                PlanEnd::Answered(completed("CREATE VIEW"@)),
            )
        },
        PlanModel::DropTables { database_name, tables, if_exists } => (
            stepped(start, tables, dropping_tables(database_name, if_exists)),
            PlanEnd::Answered(completed("DROP TABLE"@)),
        ),
        PlanModel::DropIndexes { database_name, indexes, if_exists } => {
            let opened = bootstrapped(contents);
            (
                match database_found(opened, database_name) {
                    Err(e) => failed(start, opened, e),
                    Ok(None) => failed(start, opened, no_database(database_name)),
                    Ok(Some(database)) => stepped(
                        starting(opened),
                        indexes,
                        dropping_indexes(database_name, database.database_id, if_exists),
                    ),
                },
                PlanEnd::Answered(completed("DROP INDEX"@)),
            )
        },
        PlanModel::DropViews { database_name, views, if_exists } => (
            stepped(start, views, dropping_views(database_name, if_exists)),
            PlanEnd::Answered(completed("DROP VIEW"@)),
        ),
        PlanModel::DropSchemas { database_name, schemas, if_exists } => (
            stepped(start, schemas, dropping_schemas(database_name, if_exists)),
            PlanEnd::Answered(completed("DROP SCHEMA"@)),
        ),
        PlanModel::DropDatabases { databases, if_exists } => (
            stepped(start, databases, dropping_databases(if_exists)),
            PlanEnd::Answered(completed("DROP DATABASE"@)),
        ),
        PlanModel::TruncateTables { database_name, tables } => (
            stepped(start, tables, truncating(mode, database_name)),
            PlanEnd::Answered(
                if mode == GatewayMode::MySql {
                    completed_rows("TRUNCATE TABLE"@, 0)
                } else {
                    completed("TRUNCATE TABLE"@)
                },
            ),
        ),
        PlanModel::ExplainRows { rows } => (
            start,
            PlanEnd::Answered(text_rows(mysql_explain_columns(), rows)),
        ),
        PlanModel::PostgresExplainRows { rows } => (
            start,
            PlanEnd::Answered(text_rows(seq!["QUERY PLAN"@], rows)),
        ),
        PlanModel::AnalyzeTables { database_name, tables } => (
            with_work(start, contents, refreshing(database_name, tables)),
            PlanEnd::Answered(completed("ANALYZE"@)),
        ),
        PlanModel::TableMaintenanceRows { rows } => (
            start,
            PlanEnd::Answered(text_rows(maintenance_columns(), rows)),
        ),
        _ => (start, PlanEnd::Rows),
    }
}

/// The columns of an explanation for MySQL clients.
pub open spec fn mysql_explain_columns() -> Seq<Seq<char>> {
    seq![
        "id"@,
        "select_type"@,
        "table"@,
        "partitions"@,
        "type"@,
        "possible_keys"@,
        "key"@,
        "key_len"@,
        "ref"@,
        "rows"@,
        "filtered"@,
        "Extra"@,
    ]
}

/// The columns of a report on the maintenance of tables.
pub open spec fn maintenance_columns() -> Seq<Seq<char>> {
    seq!["Table"@, "Op"@, "Msg_type"@, "Msg_text"@]
}

fn mysql_explain_column_names() -> (names: Vec<String>)
    ensures
        views(names@) == mysql_explain_columns(),
{
    let mut names: Vec<String> = Vec::new();
    names.push("id".to_string());
    names.push("select_type".to_string());
    names.push("table".to_string());
    names.push("partitions".to_string());
    names.push("type".to_string());
    names.push("possible_keys".to_string());
    names.push("key".to_string());
    names.push("key_len".to_string());
    names.push("ref".to_string());
    names.push("rows".to_string());
    names.push("filtered".to_string());
    names.push("Extra".to_string());
    assert(views(names@) =~= mysql_explain_columns());
    names
}

fn maintenance_column_names() -> (names: Vec<String>)
    ensures
        views(names@) == maintenance_columns(),
{
    let mut names: Vec<String> = Vec::new();
    names.push("Table".to_string());
    names.push("Op".to_string());
    names.push("Msg_type".to_string());
    names.push("Msg_text".to_string());
    assert(views(names@) =~= maintenance_columns());
    names
}

/// Where a gateway and the work of a plan stand.
pub open spec fn standing(actions: Seq<ActionModel>, contents: Contents) -> Progress {
    Progress { actions, contents, error: None }
}

/// Whether a step came to what it should.
pub open spec fn came_to(
    progress: Progress,
    actions: Seq<ActionModel>,
    contents: Contents,
    result: Result<(), UserError>,
) -> bool {
    &&& actions == progress.actions
    &&& contents == progress.contents
    &&& match result {
        Ok(_) => progress.error is None,
        Err(e) => progress.error == Some(e@),
    }
}

/// What became of a plan: the work that goes with it, and the answer, the error, or the plan
/// itself where it is about rows.
pub struct Execution {
    pub actions: Vec<StorageAction>,
    pub outcome: ExecutionOutcome,
}

/// How a plan ended.
pub enum ExecutionOutcome {
    /// It is through.
    Answered(Response),
    /// It failed.
    Failed(UserError),
    /// Its work is on rows, and nothing is done yet.
    OnRows(QueryPlan),
}

/// Whether an execution ended in an internal error, as it does where the store fails.
pub open spec fn failed_inside(execution: Execution) -> bool {
    execution.outcome matches ExecutionOutcome::Failed(error) && error@.code == "XX000"@
}

/// Whether a plan is one on the catalog.
pub open spec fn on_catalog(plan: PlanModel) -> bool {
    plan is CreateDatabase || plan is CreateSchema || plan is CreateTable || plan is CreateView
        || plan is DropTables || plan is DropIndexes || plan is DropViews || plan is DropSchemas
        || plan is DropDatabases || plan is TruncateTables
}

/// Whether the catalog has to be read or changed for a plan. Where nothing is to be dropped or
/// emptied, it has not.
pub open spec fn asks_catalog(plan: PlanModel) -> bool {
    match plan {
        PlanModel::CreateDatabase { .. } | PlanModel::CreateSchema { .. }
        | PlanModel::CreateTable { .. } | PlanModel::CreateView { .. } | PlanModel::DropIndexes {
            ..
        } => true,
        PlanModel::DropTables { tables, .. } => tables.len() > 0,
        PlanModel::DropViews { views, .. } => views.len() > 0,
        PlanModel::DropSchemas { schemas, .. } => schemas.len() > 0,
        PlanModel::DropDatabases { databases, .. } => databases.len() > 0,
        PlanModel::TruncateTables { tables, .. } => tables.len() > 0,
        _ => false,
    }
}

/// Whether an execution came to what it should.
pub open spec fn execution_is(
    execution: Execution,
    contents: Contents,
    expected: (Progress, PlanEnd),
    plan: PlanModel,
) -> bool {
    &&& views(execution.actions@) == expected.0.actions
    &&& contents == expected.0.contents
    &&& match execution.outcome {
        ExecutionOutcome::Answered(response) => expected.0.error is None && (
        expected.1 matches PlanEnd::Answered(answer) && response@ == answer),
        ExecutionOutcome::Failed(error) => expected.0.error == Some(error@),
        ExecutionOutcome::OnRows(same) => expected.1 is Rows && same@ == plan,
    }
}

fn add_action(actions: &mut Vec<StorageAction>, action: StorageAction)
    ensures
        views(final(actions)@) == views(old(actions)@).push(action@),
{
    let ghost before = views(actions@);
    let ghost model = action@;
    actions.push(action);
    assert(views(actions@) =~= before.push(model));
}

fn add_derived_clearing(actions: &mut Vec<StorageAction>, table_id: u32, table_epoch: u64)
    ensures
        views(final(actions)@) == views(old(actions)@) + derived_clearing(table_id, table_epoch),
{
    let ghost before = views(actions@);
    add_action(actions, StorageAction::ClearChunkMeta { table_id, table_epoch });
    add_action(actions, StorageAction::ClearChunkColumns { table_id, table_epoch });
    add_action(actions, StorageAction::ClearStatistics { table_id, table_epoch });
    assert(views(actions@) =~= before + derived_clearing(table_id, table_epoch));
}

fn add_index_clearing(
    actions: &mut Vec<StorageAction>,
    indexes: &Vec<IndexCatalog>,
    database_name: &str,
    schema_name: &str,
    table_name: &str,
)
    ensures
        views(final(actions)@) == views(old(actions)@) + index_clearing(
            views(indexes@),
            database_name@,
            schema_name@,
            table_name@,
        ),
{
    let ghost before = views(actions@);
    let ghost all = views(indexes@);
    let ghost clearing = all.map_values(
        |index: IndexModel| ActionModel::ClearIndex { index_id: index.index_id },
    );
    let mut i: usize = 0;
    assert(before =~= before + clearing.take(0));
    while i < indexes.len()
        invariant
            i <= indexes@.len(),
            all == views(indexes@),
            clearing == all.map_values(
                |index: IndexModel| ActionModel::ClearIndex { index_id: index.index_id },
            ),
            views(actions@) == before + clearing.take(i as int),
        decreases indexes@.len() - i,
    {
        assert(all[i as int] == indexes@[i as int]@);
        add_action(actions, StorageAction::ClearIndex { index_id: indexes[i].index_id });
        assert(clearing.take(i + 1) =~= clearing.take(i as int).push(clearing[i as int]));
        assert(views(actions@) =~= before + clearing.take(i + 1));
        i += 1;
    }
    assert(clearing.take(i as int) =~= clearing);
    add_action(
        actions,
        StorageAction::ClearPrefix {
            prefix: index_table_prefix(database_name, schema_name, table_name),
        },
    );
    assert(views(actions@) =~= before + index_clearing(
        all,
        database_name@,
        schema_name@,
        table_name@,
    ));
}

impl<S: KvStore> GatewayServer<S> {
    /// The work that takes the index entries of a table away.
    pub fn delete_index_data_for_table(
        &mut self,
        actions: &mut Vec<StorageAction>,
        database_name: &str,
        schema_name: &str,
        table_name: &str,
    ) -> (result: Result<(), UserError>)
        ensures
            final(self).reliable() == old(self).reliable(),
            final(self).same_sessions(old(self)),
            not_internal(result) || old(self).reliable() ==> came_to(
                index_data_cleared(
                    standing(views(old(actions)@), old(self).contents()),
                    database_name@,
                    schema_name@,
                    table_name@,
                ),
                views(final(actions)@),
                final(self).contents(),
                result,
            ),
    {
        proof {
            law_bootstrap_is_stable(self.contents());
        }
        match self.catalog.load_table(database_name, schema_name, table_name) {
            Err(e) => Err(e),
            Ok(None) => {
                let none: Vec<IndexCatalog> = Vec::new();
                assert(views(none@) =~= Seq::<IndexModel>::empty());
                add_index_clearing(actions, &none, database_name, schema_name, table_name);
                Ok(())
            },
            Ok(Some(table)) => match self.catalog.list_indexes_for_table(table.schema.table_id) {
                Err(e) => Err(e),
                Ok(indexes) => {
                    add_index_clearing(actions, &indexes, database_name, schema_name, table_name);
                    Ok(())
                },
            },
        }
    }

    fn drop_one_table(
        &mut self,
        actions: &mut Vec<StorageAction>,
        database_name: &str,
        name: &QualifiedName,
        if_exists: bool,
    ) -> (result: Result<(), UserError>)
        ensures
            final(self).reliable() == old(self).reliable(),
            final(self).same_sessions(old(self)),
            not_internal(result) || old(self).reliable() ==> came_to(
                one_table_dropped(
                    standing(views(old(actions)@), old(self).contents()),
                    database_name@,
                    name@,
                    if_exists,
                ),
                views(final(actions)@),
                final(self).contents(),
                result,
            ),
    {
        proof {
            law_bootstrap_is_stable(self.contents());
        }
        let schema_name = name.schema_name.as_str();
        let table_name = name.name.as_str();
        let table = match self.catalog.load_table(database_name, schema_name, table_name) {
            Err(e) => {
                return Err(e);
            },
            Ok(None) => {
                if if_exists {
                    return Ok(());
                }
                return Err(no_object_error("table", schema_name, table_name));
            },
            Ok(Some(table)) => table,
        };
        match self.delete_index_data_for_table(actions, database_name, schema_name, table_name) {
            Err(e) => {
                return Err(e);
            },
            Ok(_) => {},
        }
        match self.catalog.drop_table(database_name, schema_name, table_name) {
            Err(e) => {
                return Err(e);
            },
            Ok(_) => {},
        }
        let ghost before = views(actions@);
        let table_id: u32 = table.schema.table_id;
        let table_epoch: u64 = table.schema.table_epoch;
        add_action(
            actions,
            StorageAction::ForgetCatalog { database_name: database_name.to_string() },
        );
        add_action(actions, StorageAction::ClearRows { table_id, table_epoch });
        add_action(actions, StorageAction::ClearRowVersions { table_id, table_epoch });
        add_derived_clearing(actions, table_id, table_epoch);
        add_action(
            actions,
            StorageAction::ClearPrefix {
                prefix: table_data_prefix(database_name, schema_name, table_name),
            },
        );
        assert(views(actions@) =~= before + table_clearing(
            table.schema@,
            database_name@,
            schema_name@,
            table_name@,
        ));
        Ok(())
    }

    fn drop_one_index(
        &mut self,
        actions: &mut Vec<StorageAction>,
        database_name: &str,
        database_id: u32,
        name: &QualifiedName,
        if_exists: bool,
    ) -> (result: Result<(), UserError>)
        ensures
            final(self).reliable() == old(self).reliable(),
            final(self).same_sessions(old(self)),
            not_internal(result) || old(self).reliable() ==> came_to(
                one_index_dropped(
                    standing(views(old(actions)@), old(self).contents()),
                    database_name@,
                    database_id,
                    name@,
                    if_exists,
                ),
                views(final(actions)@),
                final(self).contents(),
                result,
            ),
    {
        proof {
            law_bootstrap_is_stable(self.contents());
        }
        let schema_name = name.schema_name.as_str();
        let index_name = name.name.as_str();
        let schema = match self.catalog.get_schema(database_id, schema_name) {
            Err(e) => {
                return Err(e);
            },
            Ok(None) => {
                if if_exists {
                    return Ok(());
                }
                return Err(
                    user_error_text(
                        "3F000",
                        three_texts("schema '", schema_name, "' does not exist"),
                    ),
                );
            },
            Ok(Some(schema)) => schema,
        };
        let index = match self.catalog.drop_index(database_id, schema.schema_id, index_name) {
            Err(e) => {
                return Err(e);
            },
            Ok(None) => {
                if if_exists {
                    return Ok(());
                }
                return Err(
                    user_error_text(
                        "42P01",
                        three_texts("index '", index_name, "' does not exist"),
                    ),
                );
            },
            Ok(Some(index)) => index,
        };
        let ghost before = views(actions@);
        add_action(actions, StorageAction::ClearIndex { index_id: index.index_id });
        add_action(
            actions,
            StorageAction::ClearPrefixHolding {
                prefix: index_table_prefix(database_name, schema_name, index.table_name.as_str()),
                text: three_texts("/", index_name, "/"),
            },
        );
        assert(views(actions@) =~= before + seq![
            ActionModel::ClearIndex { index_id: index@.index_id },
            ActionModel::ClearPrefixHolding {
                prefix: indexes_prefix(database_name@, schema_name@, index@.table_name),
                text: "/"@ + index_name@ + "/"@,
            },
        ]);
        Ok(())
    }

    fn drop_one_view(
        &mut self,
        actions: &mut Vec<StorageAction>,
        database_name: &str,
        name: &QualifiedName,
        if_exists: bool,
    ) -> (result: Result<(), UserError>)
        ensures
            final(self).reliable() == old(self).reliable(),
            final(self).same_sessions(old(self)),
            not_internal(result) || old(self).reliable() ==> came_to(
                one_view_dropped(
                    standing(views(old(actions)@), old(self).contents()),
                    database_name@,
                    name@,
                    if_exists,
                ),
                views(final(actions)@),
                final(self).contents(),
                result,
            ),
    {
        let schema_name = name.schema_name.as_str();
        let view_name = name.name.as_str();
        match self.catalog.drop_view(database_name, schema_name, view_name) {
            Err(e) => Err(e),
            Ok(None) => {
                if if_exists {
                    return Ok(());
                }
                Err(no_object_error("view", schema_name, view_name))
            },
            Ok(Some(_)) => {
                let ghost before = views(actions@);
                add_action(
                    actions,
                    StorageAction::ForgetCatalog { database_name: database_name.to_string() },
                );
                assert(views(actions@) =~= before + seq![
                    ActionModel::ForgetCatalog { database_name: database_name@ },
                ]);
                Ok(())
            },
        }
    }

    fn drop_member_table(
        &mut self,
        actions: &mut Vec<StorageAction>,
        database_name: &str,
        schema_name: &str,
        table: &TableCatalog,
    ) -> (result: Result<(), UserError>)
        ensures
            final(self).reliable() == old(self).reliable(),
            final(self).same_sessions(old(self)),
            not_internal(result) || old(self).reliable() ==> came_to(
                member_table_dropped(
                    standing(views(old(actions)@), old(self).contents()),
                    database_name@,
                    schema_name@,
                    table@,
                ),
                views(final(actions)@),
                final(self).contents(),
                result,
            ),
    {
        if !crate::text::same_text(table.schema_name.as_str(), schema_name) {
            return Ok(());
        }
        let table_name = table.table_name.as_str();
        match self.delete_index_data_for_table(actions, database_name, schema_name, table_name) {
            Err(e) => {
                return Err(e);
            },
            Ok(_) => {},
        }
        match self.catalog.drop_table(database_name, schema_name, table_name) {
            Err(e) => {
                return Err(e);
            },
            Ok(_) => {},
        }
        let ghost before = views(actions@);
        add_action(
            actions,
            StorageAction::ForgetCatalog { database_name: database_name.to_string() },
        );
        assert(views(actions@) =~= before + seq![
            ActionModel::ForgetCatalog { database_name: database_name@ },
        ]);
        Ok(())
    }

    fn drop_member_view(
        &mut self,
        actions: &mut Vec<StorageAction>,
        database_name: &str,
        schema_name: &str,
        view: &ViewCatalog,
    ) -> (result: Result<(), UserError>)
        ensures
            final(self).reliable() == old(self).reliable(),
            final(self).same_sessions(old(self)),
            not_internal(result) || old(self).reliable() ==> came_to(
                member_view_dropped(
                    standing(views(old(actions)@), old(self).contents()),
                    database_name@,
                    schema_name@,
                    view@,
                ),
                views(final(actions)@),
                final(self).contents(),
                result,
            ),
    {
        if !crate::text::same_text(view.schema_name.as_str(), schema_name) {
            return Ok(());
        }
        match self.catalog.drop_view(database_name, schema_name, view.view_name.as_str()) {
            Err(e) => Err(e),
            Ok(None) => Ok(()),
            Ok(Some(_)) => {
                let ghost before = views(actions@);
                add_action(
                    actions,
                    StorageAction::ForgetCatalog { database_name: database_name.to_string() },
                );
                assert(views(actions@) =~= before + seq![
                    ActionModel::ForgetCatalog { database_name: database_name@ },
                ]);
                Ok(())
            },
        }
    }

    fn drop_one_schema(
        &mut self,
        actions: &mut Vec<StorageAction>,
        database_name: &str,
        schema_name: &str,
        if_exists: bool,
    ) -> (result: Result<(), UserError>)
        ensures
            final(self).reliable() == old(self).reliable(),
            final(self).same_sessions(old(self)),
            not_internal(result) || old(self).reliable() ==> came_to(
                one_schema_dropped(
                    standing(views(old(actions)@), old(self).contents()),
                    database_name@,
                    schema_name@,
                    if_exists,
                ),
                views(final(actions)@),
                final(self).contents(),
                result,
            ),
    {
        let tables = match self.catalog.list_tables(database_name) {
            Err(e) => {
                return Err(e);
            },
            Ok(tables) => tables,
        };
        match self.drop_member_tables(actions, database_name, schema_name, &tables) {
            Err(e) => {
                return Err(e);
            },
            Ok(_) => {},
        }
        let found = match self.catalog.list_views(database_name) {
            Err(e) => {
                return Err(e);
            },
            Ok(found) => found,
        };
        match self.drop_member_views(actions, database_name, schema_name, &found) {
            Err(e) => {
                return Err(e);
            },
            Ok(_) => {},
        }
        match self.catalog.drop_schema(database_name, schema_name) {
            Err(e) => Err(e),
            Ok(None) => {
                if if_exists {
                    return Ok(());
                }
                Err(
                    user_error_text(
                        "3F000",
                        three_texts("schema '", schema_name, "' does not exist"),
                    ),
                )
            },
            Ok(Some(_)) => Ok(()),
        }
    }

    fn drop_one_database(
        &mut self,
        actions: &mut Vec<StorageAction>,
        database_name: &str,
        if_exists: bool,
    ) -> (result: Result<(), UserError>)
        ensures
            final(self).reliable() == old(self).reliable(),
            final(self).same_sessions(old(self)),
            not_internal(result) || old(self).reliable() ==> came_to(
                one_database_dropped(
                    standing(views(old(actions)@), old(self).contents()),
                    database_name@,
                    if_exists,
                ),
                views(final(actions)@),
                final(self).contents(),
                result,
            ),
    {
        match self.catalog.drop_database(database_name) {
            Err(e) => Err(e),
            Ok(found) => {
                if found.is_none() && !if_exists {
                    return Err(
                        user_error_text(
                            "3D000",
                            three_texts("database '", database_name, "' does not exist"),
                        ),
                    );
                }
                let ghost before = views(actions@);
                add_action(
                    actions,
                    StorageAction::ForgetCatalog { database_name: database_name.to_string() },
                );
                assert(views(actions@) =~= before + seq![
                    ActionModel::ForgetCatalog { database_name: database_name@ },
                ]);
                Ok(())
            },
        }
    }

    fn truncate_one_table(
        &mut self,
        actions: &mut Vec<StorageAction>,
        database_name: &str,
        table: &ScopedTable,
    ) -> (result: Result<(), UserError>)
        ensures
            final(self).reliable() == old(self).reliable(),
            final(self).same_sessions(old(self)),
            not_internal(result) || old(self).reliable() ==> came_to(
                one_table_truncated(
                    standing(views(old(actions)@), old(self).contents()),
                    old(self).mode,
                    database_name@,
                    table@,
                ),
                views(final(actions)@),
                final(self).contents(),
                result,
            ),
    {
        let schema_name = table.schema_name.as_str();
        let table_name = table.schema.table_name.as_str();
        let bumped = match self.catalog.bump_table_epoch(database_name, schema_name, table_name) {
            Err(e) => {
                return Err(e);
            },
            Ok(bumped) => bumped,
        };
        let ghost before = views(actions@);
        add_action(
            actions,
            StorageAction::ForgetCatalog { database_name: database_name.to_string() },
        );
        let epoch: u64 = if bumped.schema.table_epoch > 2 {
            bumped.schema.table_epoch - 1
        } else {
            1
        };
        add_derived_clearing(actions, bumped.schema.table_id, epoch);
        add_action(
            actions,
            StorageAction::ClearPrefix {
                prefix: table_data_prefix(database_name, schema_name, table_name),
            },
        );
        assert(views(actions@) =~= before + (seq![
            ActionModel::ForgetCatalog { database_name: database_name@ },
        ] + derived_clearing(
            bumped@.schema.table_id,
            old_epoch(bumped@.schema.table_epoch),
        ) + seq![
            ActionModel::ClearPrefix {
                prefix: table_prefix(database_name@, schema_name@, table_name@),
            },
        ]));
        match self.delete_index_data_for_table(actions, database_name, schema_name, table_name) {
            Err(e) => {
                return Err(e);
            },
            Ok(_) => {},
        }
        if self.mode == GatewayMode::MySql {
            add_sequence_reset(actions, database_name, schema_name, &table.schema);
        }
        Ok(())
    }
}

fn add_sequence_reset(
    actions: &mut Vec<StorageAction>,
    database_name: &str,
    schema_name: &str,
    schema: &TableSchema,
)
    ensures
        views(final(actions)@) == views(old(actions)@) + sequence_reset(
            database_name@,
            schema_name@,
            schema@,
        ),
{
    let ghost before = views(actions@);
    if let Some(column) = mysql_auto_increment_column(schema) {
        if let Some(text) = &column.default {
            if let Some(sequence) = nextval_sequence_name(text.as_str()) {
                let ghost name = sequence@;
                add_action(
                    actions,
                    StorageAction::ResetSequence {
                        database_name: database_name.to_string(),
                        schema_name: schema_name.to_string(),
                        sequence,
                    },
                );
                assert(views(actions@) =~= before + seq![
                    ActionModel::ResetSequence {
                        database_name: database_name@,
                        schema_name: schema_name@,
                        sequence: name,
                    },
                ]);
                return ;
            }
        }
    }
    assert(views(actions@) =~= before + Seq::<ActionModel>::empty());
}

fn add_column_sequence(
    actions: &mut Vec<StorageAction>,
    database_name: &str,
    schema_name: &str,
    start: i64,
    column: &ColumnSchema,
) -> (result: Result<(), UserError>)
    ensures
        forall|contents: Contents|
            #[trigger]
            came_to(
                column_sequenced(
                    standing(views(old(actions)@), contents),
                    database_name@,
                    schema_name@,
                    start,
                    column@,
                ),
                views(final(actions)@),
                contents,
                result,
            ),
{
    if let Some(text) = &column.default {
        if let Some(sequence) = nextval_sequence_name(text.as_str()) {
            match resolve_scoped_name(schema_name, sequence.as_str()) {
                Err(e) => {
                    return Err(e);
                },
                Ok((sequence_schema, sequence_name)) => {
                    let ghost before = views(actions@);
                    let ghost a = sequence_schema@;
                    let ghost b = sequence_name@;
                    add_action(
                        actions,
                        StorageAction::CreateSequence {
                            database_name: database_name.to_string(),
                            schema_name: sequence_schema,
                            sequence_name,
                            if_not_exists: true,
                            start,
                            increment: 1,
                        },
                    );
                    assert(views(actions@) =~= before + seq![
                        ActionModel::CreateSequence {
                            database_name: database_name@,
                            schema_name: a,
                            sequence_name: b,
                            if_not_exists: true,
                            start,
                            increment: 1,
                        },
                    ]);
                },
            }
        }
    }
    Ok(())
}

impl<S: KvStore> GatewayServer<S> {
    fn drop_tables(
        &mut self,
        actions: &mut Vec<StorageAction>,
        database_name: &str,
        items: &Vec<QualifiedName>,
        if_exists: bool,
    ) -> (result: Result<(), UserError>)
        ensures
            final(self).reliable() == old(self).reliable(),
            final(self).same_sessions(old(self)),
            not_internal(result) || old(self).reliable() || items@.len() == 0 ==> came_to(
                stepped(
                    standing(views(old(actions)@), old(self).contents()),
                    views(items@),
                    dropping_tables(database_name@, if_exists),
                ),
                views(final(actions)@),
                final(self).contents(),
                result,
            ),
    {
        let ghost start = standing(views(actions@), self.contents());
        let ghost all = views(items@);
        let ghost step = dropping_tables(database_name@, if_exists);
        let mut i: usize = 0;
        assert(all.take(0) =~= Seq::<QualifiedModel>::empty());
        while i < items.len()
            invariant
                i <= items@.len(),
                all == views(items@),
                step == dropping_tables(database_name@, if_exists),
                start == standing(views(old(actions)@), old(self).contents()),
                self.reliable() == old(self).reliable(),
                self.same_sessions(old(self)),
                stepped(start, all.take(i as int), step) == standing(
                    views(actions@),
                    self.contents(),
                ),
            decreases items@.len() - i,
        {
            assert(all.take(i + 1).drop_last() =~= all.take(i as int));
            assert(all.take(i + 1).last() == items@[i as int]@);
            match self.drop_one_table(actions, database_name, &items[i], if_exists) {
                Err(e) => {
                    proof {
                        if not_internal(Err::<(), UserError>(e)) || old(self).reliable() {
                            lemma_error_ends(start, all, step, i + 1);
                        }
                    }
                    return Err(e);
                },
                Ok(_) => {},
            }
            i += 1;
        }
        assert(all.take(i as int) =~= all);
        Ok(())
    }

    fn drop_indexes(
        &mut self,
        actions: &mut Vec<StorageAction>,
        database_name: &str,
        database_id: u32,
        items: &Vec<QualifiedName>,
        if_exists: bool,
    ) -> (result: Result<(), UserError>)
        ensures
            final(self).reliable() == old(self).reliable(),
            final(self).same_sessions(old(self)),
            not_internal(result) || old(self).reliable() ==> came_to(
                stepped(
                    standing(views(old(actions)@), old(self).contents()),
                    views(items@),
                    dropping_indexes(database_name@, database_id, if_exists),
                ),
                views(final(actions)@),
                final(self).contents(),
                result,
            ),
    {
        let ghost start = standing(views(actions@), self.contents());
        let ghost all = views(items@);
        let ghost step = dropping_indexes(database_name@, database_id, if_exists);
        let mut i: usize = 0;
        assert(all.take(0) =~= Seq::<QualifiedModel>::empty());
        while i < items.len()
            invariant
                i <= items@.len(),
                all == views(items@),
                step == dropping_indexes(database_name@, database_id, if_exists),
                start == standing(views(old(actions)@), old(self).contents()),
                self.reliable() == old(self).reliable(),
                self.same_sessions(old(self)),
                stepped(start, all.take(i as int), step) == standing(
                    views(actions@),
                    self.contents(),
                ),
            decreases items@.len() - i,
        {
            assert(all.take(i + 1).drop_last() =~= all.take(i as int));
            assert(all.take(i + 1).last() == items@[i as int]@);
            match self.drop_one_index(actions, database_name, database_id, &items[i], if_exists) {
                Err(e) => {
                    proof {
                        if not_internal(Err::<(), UserError>(e)) || old(self).reliable() {
                            lemma_error_ends(start, all, step, i + 1);
                        }
                    }
                    return Err(e);
                },
                Ok(_) => {},
            }
            i += 1;
        }
        assert(all.take(i as int) =~= all);
        Ok(())
    }

    fn drop_views(
        &mut self,
        actions: &mut Vec<StorageAction>,
        database_name: &str,
        items: &Vec<QualifiedName>,
        if_exists: bool,
    ) -> (result: Result<(), UserError>)
        ensures
            final(self).reliable() == old(self).reliable(),
            final(self).same_sessions(old(self)),
            not_internal(result) || old(self).reliable() || items@.len() == 0 ==> came_to(
                stepped(
                    standing(views(old(actions)@), old(self).contents()),
                    views(items@),
                    dropping_views(database_name@, if_exists),
                ),
                views(final(actions)@),
                final(self).contents(),
                result,
            ),
    {
        let ghost start = standing(views(actions@), self.contents());
        let ghost all = views(items@);
        let ghost step = dropping_views(database_name@, if_exists);
        let mut i: usize = 0;
        assert(all.take(0) =~= Seq::<QualifiedModel>::empty());
        while i < items.len()
            invariant
                i <= items@.len(),
                all == views(items@),
                step == dropping_views(database_name@, if_exists),
                start == standing(views(old(actions)@), old(self).contents()),
                self.reliable() == old(self).reliable(),
                self.same_sessions(old(self)),
                stepped(start, all.take(i as int), step) == standing(
                    views(actions@),
                    self.contents(),
                ),
            decreases items@.len() - i,
        {
            assert(all.take(i + 1).drop_last() =~= all.take(i as int));
            assert(all.take(i + 1).last() == items@[i as int]@);
            match self.drop_one_view(actions, database_name, &items[i], if_exists) {
                Err(e) => {
                    proof {
                        if not_internal(Err::<(), UserError>(e)) || old(self).reliable() {
                            lemma_error_ends(start, all, step, i + 1);
                        }
                    }
                    return Err(e);
                },
                Ok(_) => {},
            }
            i += 1;
        }
        assert(all.take(i as int) =~= all);
        Ok(())
    }

    fn drop_member_tables(
        &mut self,
        actions: &mut Vec<StorageAction>,
        database_name: &str,
        schema_name: &str,
        items: &Vec<TableCatalog>,
    ) -> (result: Result<(), UserError>)
        ensures
            final(self).reliable() == old(self).reliable(),
            final(self).same_sessions(old(self)),
            not_internal(result) || old(self).reliable() ==> came_to(
                stepped(
                    standing(views(old(actions)@), old(self).contents()),
                    views(items@),
                    dropping_member_tables(database_name@, schema_name@),
                ),
                views(final(actions)@),
                final(self).contents(),
                result,
            ),
    {
        let ghost start = standing(views(actions@), self.contents());
        let ghost all = views(items@);
        let ghost step = dropping_member_tables(database_name@, schema_name@);
        let mut i: usize = 0;
        assert(all.take(0) =~= Seq::<TableEntry>::empty());
        while i < items.len()
            invariant
                i <= items@.len(),
                all == views(items@),
                step == dropping_member_tables(database_name@, schema_name@),
                start == standing(views(old(actions)@), old(self).contents()),
                self.reliable() == old(self).reliable(),
                self.same_sessions(old(self)),
                stepped(start, all.take(i as int), step) == standing(
                    views(actions@),
                    self.contents(),
                ),
            decreases items@.len() - i,
        {
            assert(all.take(i + 1).drop_last() =~= all.take(i as int));
            assert(all.take(i + 1).last() == items@[i as int]@);
            match self.drop_member_table(actions, database_name, schema_name, &items[i]) {
                Err(e) => {
                    proof {
                        if not_internal(Err::<(), UserError>(e)) || old(self).reliable() {
                            lemma_error_ends(start, all, step, i + 1);
                        }
                    }
                    return Err(e);
                },
                Ok(_) => {},
            }
            i += 1;
        }
        assert(all.take(i as int) =~= all);
        Ok(())
    }

    fn drop_member_views(
        &mut self,
        actions: &mut Vec<StorageAction>,
        database_name: &str,
        schema_name: &str,
        items: &Vec<ViewCatalog>,
    ) -> (result: Result<(), UserError>)
        ensures
            final(self).reliable() == old(self).reliable(),
            final(self).same_sessions(old(self)),
            not_internal(result) || old(self).reliable() ==> came_to(
                stepped(
                    standing(views(old(actions)@), old(self).contents()),
                    views(items@),
                    dropping_member_views(database_name@, schema_name@),
                ),
                views(final(actions)@),
                final(self).contents(),
                result,
            ),
    {
        let ghost start = standing(views(actions@), self.contents());
        let ghost all = views(items@);
        let ghost step = dropping_member_views(database_name@, schema_name@);
        let mut i: usize = 0;
        assert(all.take(0) =~= Seq::<ViewModel>::empty());
        while i < items.len()
            invariant
                i <= items@.len(),
                all == views(items@),
                step == dropping_member_views(database_name@, schema_name@),
                start == standing(views(old(actions)@), old(self).contents()),
                self.reliable() == old(self).reliable(),
                self.same_sessions(old(self)),
                stepped(start, all.take(i as int), step) == standing(
                    views(actions@),
                    self.contents(),
                ),
            decreases items@.len() - i,
        {
            assert(all.take(i + 1).drop_last() =~= all.take(i as int));
            assert(all.take(i + 1).last() == items@[i as int]@);
            match self.drop_member_view(actions, database_name, schema_name, &items[i]) {
                Err(e) => {
                    proof {
                        if not_internal(Err::<(), UserError>(e)) || old(self).reliable() {
                            lemma_error_ends(start, all, step, i + 1);
                        }
                    }
                    return Err(e);
                },
                Ok(_) => {},
            }
            i += 1;
        }
        assert(all.take(i as int) =~= all);
        Ok(())
    }

    fn drop_schemas(
        &mut self,
        actions: &mut Vec<StorageAction>,
        database_name: &str,
        items: &Vec<String>,
        if_exists: bool,
    ) -> (result: Result<(), UserError>)
        ensures
            final(self).reliable() == old(self).reliable(),
            final(self).same_sessions(old(self)),
            not_internal(result) || old(self).reliable() || items@.len() == 0 ==> came_to(
                stepped(
                    standing(views(old(actions)@), old(self).contents()),
                    views(items@),
                    dropping_schemas(database_name@, if_exists),
                ),
                views(final(actions)@),
                final(self).contents(),
                result,
            ),
    {
        let ghost start = standing(views(actions@), self.contents());
        let ghost all = views(items@);
        let ghost step = dropping_schemas(database_name@, if_exists);
        let mut i: usize = 0;
        assert(all.take(0) =~= Seq::<Seq<char>>::empty());
        while i < items.len()
            invariant
                i <= items@.len(),
                all == views(items@),
                step == dropping_schemas(database_name@, if_exists),
                start == standing(views(old(actions)@), old(self).contents()),
                self.reliable() == old(self).reliable(),
                self.same_sessions(old(self)),
                stepped(start, all.take(i as int), step) == standing(
                    views(actions@),
                    self.contents(),
                ),
            decreases items@.len() - i,
        {
            assert(all.take(i + 1).drop_last() =~= all.take(i as int));
            assert(all.take(i + 1).last() == items@[i as int]@);
            match self.drop_one_schema(actions, database_name, items[i].as_str(), if_exists) {
                Err(e) => {
                    proof {
                        if not_internal(Err::<(), UserError>(e)) || old(self).reliable() {
                            lemma_error_ends(start, all, step, i + 1);
                        }
                    }
                    return Err(e);
                },
                Ok(_) => {},
            }
            i += 1;
        }
        assert(all.take(i as int) =~= all);
        Ok(())
    }

    fn drop_databases(
        &mut self,
        actions: &mut Vec<StorageAction>,
        items: &Vec<String>,
        if_exists: bool,
    ) -> (result: Result<(), UserError>)
        ensures
            final(self).reliable() == old(self).reliable(),
            final(self).same_sessions(old(self)),
            not_internal(result) || old(self).reliable() || items@.len() == 0 ==> came_to(
                stepped(
                    standing(views(old(actions)@), old(self).contents()),
                    views(items@),
                    dropping_databases(if_exists),
                ),
                views(final(actions)@),
                final(self).contents(),
                result,
            ),
    {
        let ghost start = standing(views(actions@), self.contents());
        let ghost all = views(items@);
        let ghost step = dropping_databases(if_exists);
        let mut i: usize = 0;
        assert(all.take(0) =~= Seq::<Seq<char>>::empty());
        while i < items.len()
            invariant
                i <= items@.len(),
                all == views(items@),
                step == dropping_databases(if_exists),
                start == standing(views(old(actions)@), old(self).contents()),
                self.reliable() == old(self).reliable(),
                self.same_sessions(old(self)),
                stepped(start, all.take(i as int), step) == standing(
                    views(actions@),
                    self.contents(),
                ),
            decreases items@.len() - i,
        {
            assert(all.take(i + 1).drop_last() =~= all.take(i as int));
            assert(all.take(i + 1).last() == items@[i as int]@);
            match self.drop_one_database(actions, items[i].as_str(), if_exists) {
                Err(e) => {
                    proof {
                        if not_internal(Err::<(), UserError>(e)) || old(self).reliable() {
                            lemma_error_ends(start, all, step, i + 1);
                        }
                    }
                    return Err(e);
                },
                Ok(_) => {},
            }
            i += 1;
        }
        assert(all.take(i as int) =~= all);
        Ok(())
    }

    fn truncate_tables(
        &mut self,
        actions: &mut Vec<StorageAction>,
        database_name: &str,
        items: &Vec<ScopedTable>,
    ) -> (result: Result<(), UserError>)
        ensures
            final(self).reliable() == old(self).reliable(),
            final(self).same_sessions(old(self)),
            not_internal(result) || old(self).reliable() || items@.len() == 0 ==> came_to(
                stepped(
                    standing(views(old(actions)@), old(self).contents()),
                    views(items@),
                    truncating(old(self).mode, database_name@),
                ),
                views(final(actions)@),
                final(self).contents(),
                result,
            ),
    {
        let ghost start = standing(views(actions@), self.contents());
        let ghost all = views(items@);
        let ghost step = truncating(old(self).mode, database_name@);
        let mut i: usize = 0;
        assert(all.take(0) =~= Seq::<ScopedModel>::empty());
        while i < items.len()
            invariant
                i <= items@.len(),
                all == views(items@),
                step == truncating(old(self).mode, database_name@),
                start == standing(views(old(actions)@), old(self).contents()),
                self.reliable() == old(self).reliable(),
                self.same_sessions(old(self)),
                stepped(start, all.take(i as int), step) == standing(
                    views(actions@),
                    self.contents(),
                ),
            decreases items@.len() - i,
        {
            assert(all.take(i + 1).drop_last() =~= all.take(i as int));
            assert(all.take(i + 1).last() == items@[i as int]@);
            match self.truncate_one_table(actions, database_name, &items[i]) {
                Err(e) => {
                    proof {
                        if not_internal(Err::<(), UserError>(e)) || old(self).reliable() {
                            lemma_error_ends(start, all, step, i + 1);
                        }
                    }
                    return Err(e);
                },
                Ok(_) => {},
            }
            i += 1;
        }
        assert(all.take(i as int) =~= all);
        Ok(())
    }
}

fn answered(actions: Vec<StorageAction>, result: Result<(), UserError>, response: Response) -> (execution:
    Execution)
    ensures
        execution.actions == actions,
        match result {
            Ok(_) => execution.outcome == ExecutionOutcome::Answered(response),
            Err(e) => execution.outcome == ExecutionOutcome::Failed(e),
        },
{
    match result {
        Ok(_) => Execution { actions, outcome: ExecutionOutcome::Answered(response) },
        Err(e) => Execution { actions, outcome: ExecutionOutcome::Failed(e) },
    }
}

fn text_answer(names: Vec<String>, rows: &Vec<TextRow>) -> (response: Response)
    ensures
        response@ == text_rows(views(names@), views(rows@)),
{
    match multi_text_row_response(&names, rows) {
        Ok(mut responses) => {
            let ghost all = views(responses@);
            assert(all.len() == responses@.len());
            assert(all[0] == responses@[0]@);
            responses.remove(0)
        },
        Err(_) => crate::response::empty_query_response(),
    }
}

impl<S: KvStore> GatewayServer<S> {
    fn create_table(
        &mut self,
        actions: &mut Vec<StorageAction>,
        database_name: &str,
        schema_name: &str,
        schema: &TableSchema,
        auto_increment_start: Option<i64>,
        indexes: &Vec<IndexPlan>,
    ) -> (result: Result<(), UserError>)
        requires
            old(actions)@.len() == 0,
        ensures
            final(self).reliable() == old(self).reliable(),
            final(self).same_sessions(old(self)),
            not_internal(result) || old(self).reliable() ==> came_to(
                table_created(
                    old(self).contents(),
                    database_name@,
                    schema_name@,
                    schema@,
                    auto_increment_start,
                    views(indexes@),
                ),
                views(final(actions)@),
                final(self).contents(),
                result,
            ),
    {
        assert(views(actions@) =~= Seq::<ActionModel>::empty());
        match self.catalog.store_table(database_name, schema_name, schema) {
            Err(e) => {
                return Err(e);
            },
            Ok(_) => {},
        }
        add_action(
            actions,
            StorageAction::ForgetCatalog { database_name: database_name.to_string() },
        );
        assert(views(actions@) =~= Seq::<ActionModel>::empty() + seq![
            ActionModel::ForgetCatalog { database_name: database_name@ },
        ]);
        let start: i64 = match auto_increment_start {
            Some(start) => start,
            None => 1,
        };
        let ghost after = self.contents();
        let ghost begun = standing(views(actions@), after);
        let ghost columns = schema@.columns;
        let ghost step = sequencing(database_name@, schema_name@, start);
        let mut i: usize = 0;
        assert(columns.take(0) =~= Seq::<ColumnModel>::empty());
        while i < schema.columns.len()
            invariant
                i <= schema.columns@.len(),
                columns == views(schema.columns@),
                columns == schema@.columns,
                step == sequencing(database_name@, schema_name@, start),
                start == (match auto_increment_start {
                    Some(start) => start,
                    None => 1,
                }),
                table_stored(
                    old(self).contents(),
                    database_name@,
                    schema_name@,
                    schema@,
                ).0 is Ok,
                after == table_stored(
                    old(self).contents(),
                    database_name@,
                    schema_name@,
                    schema@,
                ).1,
                begun == with_work(
                    starting(old(self).contents()),
                    after,
                    seq![ActionModel::ForgetCatalog { database_name: database_name@ }],
                ),
                self.contents() == after,
                self.reliable() == old(self).reliable(),
                self.same_sessions(old(self)),
                stepped(begun, columns.take(i as int), step) == standing(views(actions@), after),
            decreases schema.columns@.len() - i,
        {
            assert(columns.take(i + 1).drop_last() =~= columns.take(i as int));
            assert(columns.take(i + 1).last() == schema.columns@[i as int]@);
            let ghost before = views(actions@);
            let added = add_column_sequence(
                actions,
                database_name,
                schema_name,
                start,
                &schema.columns[i],
            );
            assert(came_to(
                column_sequenced(
                    standing(before, after),
                    database_name@,
                    schema_name@,
                    start,
                    schema.columns@[i as int]@,
                ),
                views(actions@),
                after,
                added,
            ));
            match added {
                Err(e) => {
                    proof {
                        lemma_error_ends(begun, columns, step, i + 1);
                    }
                    return Err(e);
                },
                Ok(_) => {},
            }
            i += 1;
        }
        assert(columns.take(i as int) =~= columns);
        let ghost before = views(actions@);
        let ghost plans = views(indexes@);
        let ghost work = indexing(database_name@, schema_name@, schema@.table_name, plans);
        let mut k: usize = 0;
        assert(before =~= before + work.take(0));
        while k < indexes.len()
            invariant
                k <= indexes@.len(),
                plans == views(indexes@),
                work == indexing(database_name@, schema_name@, schema@.table_name, plans),
                views(actions@) == before + work.take(k as int),
                self.contents() == after,
                self.reliable() == old(self).reliable(),
                self.same_sessions(old(self)),
            decreases indexes@.len() - k,
        {
            assert(plans[k as int] == indexes@[k as int]@);
            add_action(
                actions,
                StorageAction::CreateIndex {
                    database_name: database_name.to_string(),
                    schema_name: schema_name.to_string(),
                    table_name: schema.table_name.clone(),
                    index: indexes[k].duplicate(),
                    if_not_exists: true,
                },
            );
            assert(work.take(k + 1) =~= work.take(k as int).push(work[k as int]));
            assert(views(actions@) =~= before + work.take(k + 1));
            k += 1;
        }
        assert(work.take(k as int) =~= work);
        Ok(())
    }

    /// Executes a plan on the catalog.
    #[verifier::rlimit(80)]
    #[verifier::spinoff_prover]
    fn execute_catalog_plan(&mut self, plan: QueryPlan) -> (execution: Execution)
        requires
            on_catalog(plan@),
        ensures
            final(self).reliable() == old(self).reliable(),
            final(self).same_sessions(old(self)),
            !failed_inside(execution) || old(self).reliable() || !asks_catalog(plan@)
                ==> execution_is(
                execution,
                final(self).contents(),
                executed(old(self).contents(), old(self).mode, plan@),
                plan@,
            ),
    {
        let mut actions: Vec<StorageAction> = Vec::new();
        assert(views(actions@) =~= Seq::<ActionModel>::empty());
        match plan {
            QueryPlan::CreateDatabase { database_name, if_not_exists } => {
                match self.catalog.create_database(database_name.as_str(), if_not_exists) {
                    Err(e) => answered(actions, Err(e), command_complete("CREATE DATABASE")),
                    Ok(_) => answered(actions, Ok(()), command_complete("CREATE DATABASE")),
                }
            },
            QueryPlan::CreateSchema { database_name, schema_name, if_not_exists } => {
                match self.catalog.create_schema(
                    database_name.as_str(),
                    schema_name.as_str(),
                    if_not_exists,
                ) {
                    Err(e) => answered(actions, Err(e), command_complete("CREATE SCHEMA")),
                    Ok(_) => answered(actions, Ok(()), command_complete("CREATE SCHEMA")),
                }
            },
            QueryPlan::CreateTable {
                database_name,
                schema_name,
                schema,
                auto_increment_start,
                indexes,
            } => {
                let result = self.create_table(
                    &mut actions,
                    database_name.as_str(),
                    schema_name.as_str(),
                    &schema,
                    auto_increment_start,
                    &indexes,
                );
                answered(actions, result, command_complete("CREATE TABLE"))
            },
            QueryPlan::CreateView {
                database_name,
                schema_name,
                view_name,
                definition,
                or_replace,
                if_not_exists,
            } => {
                match self.catalog.store_view(
                    database_name.as_str(),
                    schema_name.as_str(),
                    view_name.as_str(),
                    definition.as_str(),
                    or_replace,
                    if_not_exists,
                ) {
                    Err(e) => answered(actions, Err(e), command_complete("CREATE VIEW")),
                    Ok(_) => {
                        let action = StorageAction::ForgetCatalog { database_name };
                        let ghost model = action@;
                        add_action(&mut actions, action);
                        assert(views(actions@) =~= Seq::<ActionModel>::empty() + seq![model]);
                        answered(actions, Ok(()), command_complete("CREATE VIEW"))
                    },
                }
            },
            QueryPlan::DropTables { database_name, tables, if_exists } => {
                let result = self.drop_tables(
                    &mut actions,
                    database_name.as_str(),
                    &tables,
                    if_exists,
                );
                answered(actions, result, command_complete("DROP TABLE"))
            },
            QueryPlan::DropIndexes { database_name, indexes, if_exists } => {
                match self.catalog.get_database(database_name.as_str()) {
                    Err(e) => answered(actions, Err(e), command_complete("DROP INDEX")),
                    Ok(None) => answered(
                        actions,
                        Err(
                            user_error_text(
                                "3D000",
                                three_texts(
                                    "database '",
                                    database_name.as_str(),
                                    "' does not exist",
                                ),
                            ),
                        ),
                        command_complete("DROP INDEX"),
                    ),
                    Ok(Some(database)) => {
                        let result = self.drop_indexes(
                            &mut actions,
                            database_name.as_str(),
                            database.database_id,
                            &indexes,
                            if_exists,
                        );
                        answered(actions, result, command_complete("DROP INDEX"))
                    },
                }
            },
            QueryPlan::DropViews { database_name, views, if_exists } => {
                let result = self.drop_views(
                    &mut actions,
                    database_name.as_str(),
                    &views,
                    if_exists,
                );
                answered(actions, result, command_complete("DROP VIEW"))
            },
            QueryPlan::DropSchemas { database_name, schemas, if_exists } => {
                let result = self.drop_schemas(
                    &mut actions,
                    database_name.as_str(),
                    &schemas,
                    if_exists,
                );
                answered(actions, result, command_complete("DROP SCHEMA"))
            },
            QueryPlan::DropDatabases { databases, if_exists } => {
                let result = self.drop_databases(&mut actions, &databases, if_exists);
                answered(actions, result, command_complete("DROP DATABASE"))
            },
            QueryPlan::TruncateTables { database_name, tables } => {
                let result = self.truncate_tables(&mut actions, database_name.as_str(), &tables);
                if self.mode == GatewayMode::MySql {
                    answered(actions, result, command_complete_rows("TRUNCATE TABLE", 0))
                } else {
                    answered(actions, result, command_complete("TRUNCATE TABLE"))
                }
            },
            other => execute_other_plan(other),
        }
    }

    /// Executes a plan as far as it is about the catalog. The work on stored data that goes
    /// with it is to be done in its order; a plan about rows is handed back.
    pub fn execute_plan(&mut self, plan: QueryPlan) -> (execution: Execution)
        ensures
            final(self).reliable() == old(self).reliable(),
            final(self).same_sessions(old(self)),
            !failed_inside(execution) || old(self).reliable() || !asks_catalog(plan@)
                ==> execution_is(
                execution,
                final(self).contents(),
                executed(old(self).contents(), old(self).mode, plan@),
                plan@,
            ),
    {
        if is_on_catalog(&plan) {
            self.execute_catalog_plan(plan)
        } else {
            let execution = execute_other_plan(plan);
            assert(execution_is(
                execution,
                self.contents(),
                executed(self.contents(), self.mode, plan@),
                plan@,
            ));
            execution
        }
    }
}

fn is_on_catalog(plan: &QueryPlan) -> (answer: bool)
    ensures
        answer == on_catalog(plan@),
{
    match plan {
        QueryPlan::CreateDatabase { .. } => true,
        QueryPlan::CreateSchema { .. } => true,
        QueryPlan::CreateTable { .. } => true,
        QueryPlan::CreateView { .. } => true,
        QueryPlan::DropTables { .. } => true,
        QueryPlan::DropIndexes { .. } => true,
        QueryPlan::DropViews { .. } => true,
        QueryPlan::DropSchemas { .. } => true,
        QueryPlan::DropDatabases { .. } => true,
        QueryPlan::TruncateTables { .. } => true,
        _ => false,
    }
}

/// Executes a plan for which the catalog is not asked.
#[verifier::spinoff_prover]
fn execute_other_plan(plan: QueryPlan) -> (execution: Execution)
    requires
        !on_catalog(plan@),
    ensures
        forall|contents: Contents, mode: GatewayMode|
            execution_is(
                execution,
                contents,
                #[trigger] executed(contents, mode, plan@),
                plan@,
            ),
{
    let mut actions: Vec<StorageAction> = Vec::new();
    assert(views(actions@) =~= Seq::<ActionModel>::empty());
    match plan {
        QueryPlan::Noop { tag } => answered(actions, Ok(()), command_complete(tag.as_str())),
        QueryPlan::CreateSequence {
            database_name,
            schema_name,
            sequence_name,
            if_not_exists,
            start,
            increment,
        } => {
            let action = StorageAction::CreateSequence {
                database_name,
                schema_name,
                sequence_name,
                if_not_exists,
                start,
                increment,
            };
            let ghost model = action@;
            add_action(&mut actions, action);
            assert(views(actions@) =~= Seq::<ActionModel>::empty() + seq![model]);
            answered(actions, Ok(()), command_complete("CREATE SEQUENCE"))
        },
        QueryPlan::ExplainRows { rows } => answered(
            actions,
            Ok(()),
            text_answer(mysql_explain_column_names(), &rows),
        ),
        QueryPlan::PostgresExplainRows { rows } => {
            let mut names: Vec<String> = Vec::new();
            names.push("QUERY PLAN".to_string());
            assert(crate::schema::views(names@) =~= seq!["QUERY PLAN"@]);
            answered(actions, Ok(()), text_answer(names, &rows))
        },
        QueryPlan::AnalyzeTables { database_name, tables } => {
            add_refreshing(&mut actions, database_name.as_str(), &tables);
            assert(crate::schema::views(actions@) =~= Seq::<ActionModel>::empty() + refreshing(
                database_name@,
                crate::schema::views(tables@),
            ));
            answered(actions, Ok(()), command_complete("ANALYZE"))
        },
        QueryPlan::TableMaintenanceRows { rows } => answered(
            actions,
            Ok(()),
            text_answer(maintenance_column_names(), &rows),
        ),
        on_rows => Execution { actions, outcome: ExecutionOutcome::OnRows(on_rows) },
    }
}

fn add_refreshing(
    actions: &mut Vec<StorageAction>,
    database_name: &str,
    tables: &Vec<ScopedTable>,
)
    ensures
        views(final(actions)@) == views(old(actions)@) + refreshing(
            database_name@,
            views(tables@),
        ),
{
    let ghost before = views(actions@);
    let ghost all = views(tables@);
    let ghost work = all.map_values(
        |table: ScopedModel|
            ActionModel::RefreshStatistics {
                database_name: database_name@,
                schema_name: table.schema_name,
                schema: table.schema,
            },
    );
    let mut i: usize = 0;
    assert(before =~= before + work.take(0));
    while i < tables.len()
        invariant
            i <= tables@.len(),
            all == views(tables@),
            work == all.map_values(
                |table: ScopedModel|
                    ActionModel::RefreshStatistics {
                        database_name: database_name@,
                        schema_name: table.schema_name,
                        schema: table.schema,
                    },
            ),
            views(actions@) == before + work.take(i as int),
        decreases tables@.len() - i,
    {
        assert(all[i as int] == tables@[i as int]@);
        add_action(
            actions,
            StorageAction::RefreshStatistics {
                database_name: database_name.to_string(),
                schema_name: tables[i].schema_name.clone(),
                schema: tables[i].schema.duplicate(),
            },
        );
        assert(work.take(i + 1) =~= work.take(i as int).push(work[i as int]));
        assert(views(actions@) =~= before + work.take(i + 1));
        i += 1;
    }
    assert(work.take(i as int) =~= work);
    add_action(
        actions,
        StorageAction::ForgetCatalog { database_name: database_name.to_string() },
    );
    assert(views(actions@) =~= before + refreshing(database_name@, all));
}

} // verus!
