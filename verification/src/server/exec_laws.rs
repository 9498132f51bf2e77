//! What execution is for: what is dropped leaves neither its description nor its data, what is
//! emptied keeps its description alone, what is made has all that it needs, and the client is told
//! what was done.
use vstd::prelude::*;

use crate::catalog::model::{
    bootstrapped, epoch_bumped, index_dropped, indexes_listed, schema_found, table_dropped,
    table_found, table_stored, view_dropped,
};
use crate::catalog::types::{IndexModel, SchemaModel, TableEntry};
use crate::codec::{indexes_prefix, table_prefix};
use crate::error::Report;
use crate::mem_store::Contents;
use crate::mode::GatewayMode;
use crate::response::ResponseModel;
use crate::schema::{ColumnModel, TableModel};
use crate::server::exec::{
    executed, index_data_cleared, one_index_dropped, one_table_dropped, one_table_truncated,
    one_view_dropped, refreshing, sequencing, stepped, table_created, with_work, ActionModel,
    PlanEnd, Progress,
};
use crate::server::gateway::scoped_name;
use crate::server::plan::{IndexPlanModel, PlanModel, QualifiedModel, ScopedModel};
use crate::server::sequences::{auto_increment_column, nextval_name};

verus! {

/// Whether work was added behind the work that was there.
pub open spec fn goes_on(next: Progress, before: Progress) -> bool {
    next.actions.len() >= before.actions.len() && next.actions.take(before.actions.len() as int)
        == before.actions
}

proof fn lemma_more_work(progress: Progress, contents: Contents, actions: Seq<ActionModel>)
    ensures
        goes_on(with_work(progress, contents, actions), progress),
        forall|action: ActionModel| #[trigger]
            with_work(progress, contents, actions).actions.contains(action)
                <==> progress.actions.contains(action) || actions.contains(action),
{
    let next = with_work(progress, contents, actions);
    assert(next.actions.take(progress.actions.len() as int) =~= progress.actions);
    assert forall|action: ActionModel| #[trigger]
        next.actions.contains(action) <==> progress.actions.contains(action) || actions.contains(
            action,
        ) by {
        if progress.actions.contains(action) {
            let i = choose|i: int| 0 <= i < progress.actions.len() && progress.actions[i] == action;
            assert(next.actions[i] == action);
        }
        if actions.contains(action) {
            let i = choose|i: int| 0 <= i < actions.len() && actions[i] == action;
            assert(next.actions[progress.actions.len() + i] == action);
        }
        if next.actions.contains(action) {
            let i = choose|i: int| 0 <= i < next.actions.len() && next.actions[i] == action;
            if i < progress.actions.len() {
                assert(progress.actions[i] == action);
            } else {
                assert(actions[i - progress.actions.len()] == action);
            }
        }
    }
}

/// The entries of all indexes of a table are taken away, of each by its number and of all by their
/// place.
pub proof fn law_index_entries_are_cleared(
    progress: Progress,
    database_name: Seq<char>,
    schema_name: Seq<char>,
    table_name: Seq<char>,
    table: TableEntry,
    indexes: Seq<IndexModel>,
    i: int,
)
    requires
        table_found(bootstrapped(progress.contents), database_name, schema_name, table_name) == Ok::<
            Option<TableEntry>,
            Report,
        >(Some(table)),
        indexes_listed(bootstrapped(progress.contents), table.schema.table_id) == Ok::<
            Seq<IndexModel>,
            Report,
        >(indexes),
    ensures
        ({
            let next = index_data_cleared(progress, database_name, schema_name, table_name);
            &&& next.error == progress.error
            &&& next.contents == bootstrapped(progress.contents)
            &&& goes_on(next, progress)
            &&& next.actions.contains(
                ActionModel::ClearPrefix {
                    prefix: indexes_prefix(database_name, schema_name, table_name),
                },
            )
            &&& 0 <= i < indexes.len() ==> next.actions.contains(
                ActionModel::ClearIndex { index_id: indexes[i].index_id },
            )
        }),
{
    let work = crate::server::exec::index_clearing(
        indexes,
        database_name,
        schema_name,
        table_name,
    );
    lemma_more_work(progress, bootstrapped(progress.contents), work);
    assert(work[indexes.len() as int] == (ActionModel::ClearPrefix {
        prefix: indexes_prefix(database_name, schema_name, table_name),
    }));
    assert(work.contains(work[indexes.len() as int]));
    if 0 <= i < indexes.len() {
        assert(work[i] == (ActionModel::ClearIndex { index_id: indexes[i].index_id }));
        assert(work.contains(work[i]));
    }
}

/// A table that is dropped goes from the catalog, and with it its rows, their versions, what was
/// derived from them, its earlier layout and the entries of its indexes. One that is not there is
/// an error, unless that is no fault, and then nothing is done.
pub proof fn law_dropped_tables_leave_nothing(
    progress: Progress,
    database_name: Seq<char>,
    name: QualifiedModel,
    if_exists: bool,
    table: TableEntry,
    indexes: Seq<IndexModel>,
    i: int,
)
    requires
        progress.error is None,
    ensures
        ({
            let opened = bootstrapped(progress.contents);
            let next = one_table_dropped(progress, database_name, name, if_exists);
            &&& table_found(opened, database_name, name.schema_name, name.name) == Ok::<
                Option<TableEntry>,
                Report,
            >(None) ==> next.actions == progress.actions && next.contents == opened && (
            next.error is None <==> if_exists) && (next.error matches Some(e) ==> e.code
                == "42P01"@)
            &&& table_found(opened, database_name, name.schema_name, name.name) == Ok::<
                Option<TableEntry>,
                Report,
            >(Some(table)) && indexes_listed(opened, table.schema.table_id) == Ok::<
                Seq<IndexModel>,
                Report,
            >(indexes) && bootstrapped(opened) == opened && next.error is None ==> {
                let table_id = table.schema.table_id;
                let table_epoch = table.schema.table_epoch;
                &&& next.contents == table_dropped(
                    opened,
                    database_name,
                    name.schema_name,
                    name.name,
                ).1
                &&& goes_on(next, progress)
                &&& next.actions.contains(ActionModel::ForgetCatalog { database_name })
                &&& next.actions.contains(ActionModel::ClearRows { table_id, table_epoch })
                &&& next.actions.contains(ActionModel::ClearRowVersions { table_id, table_epoch })
                &&& next.actions.contains(ActionModel::ClearChunkMeta { table_id, table_epoch })
                &&& next.actions.contains(ActionModel::ClearChunkColumns { table_id, table_epoch })
                &&& next.actions.contains(ActionModel::ClearStatistics { table_id, table_epoch })
                &&& next.actions.contains(
                    ActionModel::ClearPrefix {
                        prefix: table_prefix(database_name, name.schema_name, name.name),
                    },
                )
                &&& next.actions.contains(
                    ActionModel::ClearPrefix {
                        prefix: indexes_prefix(database_name, name.schema_name, name.name),
                    },
                )
                &&& 0 <= i < indexes.len() ==> next.actions.contains(
                    ActionModel::ClearIndex { index_id: indexes[i].index_id },
                )
            }
        }),
{
    let opened = bootstrapped(progress.contents);
    let next = one_table_dropped(progress, database_name, name, if_exists);
    if table_found(opened, database_name, name.schema_name, name.name) == Ok::<
        Option<TableEntry>,
        Report,
    >(Some(table)) && indexes_listed(opened, table.schema.table_id) == Ok::<
        Seq<IndexModel>,
        Report,
    >(indexes) && bootstrapped(opened) == opened && next.error is None {
        let start = Progress { contents: opened, ..progress };
        law_index_entries_are_cleared(
            start,
            database_name,
            name.schema_name,
            name.name,
            table,
            indexes,
            i,
        );
        let cleared = index_data_cleared(start, database_name, name.schema_name, name.name);
        let after = table_dropped(
            cleared.contents,
            database_name,
            name.schema_name,
            name.name,
        ).1;
        let work = crate::server::exec::table_clearing(
            table.schema,
            database_name,
            name.schema_name,
            name.name,
        );
        lemma_more_work(cleared, after, work);
        assert(next == with_work(cleared, after, work));
        assert(next.actions.take(progress.actions.len() as int) =~= progress.actions) by {
            assert(cleared.actions.take(progress.actions.len() as int) == progress.actions);
            assert(next.actions.take(cleared.actions.len() as int) == cleared.actions);
            assert(next.actions.take(cleared.actions.len() as int).take(
                progress.actions.len() as int,
            ) =~= next.actions.take(progress.actions.len() as int));
        }
        let table_id = table.schema.table_id;
        let table_epoch = table.schema.table_epoch;
        assert(work[0] == (ActionModel::ForgetCatalog { database_name }));
        assert(work[1] == (ActionModel::ClearRows { table_id, table_epoch }));
        assert(work[2] == (ActionModel::ClearRowVersions { table_id, table_epoch }));
        assert(work[3] == (ActionModel::ClearChunkMeta { table_id, table_epoch }));
        assert(work[4] == (ActionModel::ClearChunkColumns { table_id, table_epoch }));
        assert(work[5] == (ActionModel::ClearStatistics { table_id, table_epoch }));
        assert(work[6] == (ActionModel::ClearPrefix {
            prefix: table_prefix(database_name, name.schema_name, name.name),
        }));
        assert(work.contains(work[0]) && work.contains(work[1]) && work.contains(work[2])
            && work.contains(work[3]) && work.contains(work[4]) && work.contains(work[5])
            && work.contains(work[6]));
    }
}

/// An index that is dropped goes from the catalog, and with it its entries in both layouts, and
/// those of no other.
pub proof fn law_dropped_indexes_leave_nothing(
    progress: Progress,
    database_name: Seq<char>,
    database_id: u32,
    name: QualifiedModel,
    if_exists: bool,
    schema: SchemaModel,
)
    requires
        progress.error is None,
        schema_found(bootstrapped(progress.contents), database_id, name.schema_name) == Ok::<
            Option<SchemaModel>,
            Report,
        >(Some(schema)),
    ensures
        ({
            let (found, after) = index_dropped(
                bootstrapped(progress.contents),
                database_id,
                schema.schema_id,
                name.name,
            );
            let next = one_index_dropped(progress, database_name, database_id, name, if_exists);
            &&& next.contents == after
            &&& found matches Ok(Some(index)) ==> {
                &&& next.error is None
                &&& next.actions.len() == progress.actions.len() + 2
                &&& goes_on(next, progress)
                &&& next.actions[progress.actions.len() as int] == (ActionModel::ClearIndex {
                    index_id: index.index_id,
                })
                &&& next.actions[progress.actions.len() as int + 1] == (ActionModel::ClearPrefixHolding {
                    prefix: indexes_prefix(database_name, name.schema_name, index.table_name),
                    text: "/"@ + name.name + "/"@,
                })
            }
            &&& found matches Ok(None) ==> next.actions == progress.actions && (next.error is None
                <==> if_exists)
        }),
{
    let (found, after) = index_dropped(
        bootstrapped(progress.contents),
        database_id,
        schema.schema_id,
        name.name,
    );
    if let Ok(Some(index)) = found {
        lemma_more_work(
            progress,
            after,
            seq![
                ActionModel::ClearIndex { index_id: index.index_id },
                ActionModel::ClearPrefixHolding {
                    prefix: indexes_prefix(database_name, name.schema_name, index.table_name),
                    text: "/"@ + name.name + "/"@,
                },
            ],
        );
    }
}

/// A view that is dropped goes from the catalog; one that is not there is an error, unless that is
/// no fault.
pub proof fn law_dropped_views_are_gone(
    progress: Progress,
    database_name: Seq<char>,
    name: QualifiedModel,
    if_exists: bool,
)
    requires
        progress.error is None,
    ensures
        ({
            let (found, after) = view_dropped(
                progress.contents,
                database_name,
                name.schema_name,
                name.name,
            );
            let next = one_view_dropped(progress, database_name, name, if_exists);
            &&& next.contents == after
            &&& found matches Ok(Some(_)) ==> next.error is None
            &&& found matches Ok(None) ==> (next.error is None <==> if_exists) && next.actions
                == progress.actions
        }),
{
}

/// A table that is emptied goes into its next epoch, in which it has no rows; what was derived
/// from the old ones, their earlier layout and the entries of the indexes go. For MySQL clients it
/// also counts from the start again.
pub proof fn law_emptied_tables_start_anew(
    progress: Progress,
    mode: GatewayMode,
    database_name: Seq<char>,
    table: ScopedModel,
)
    requires
        progress.error is None,
    ensures
        ({
            let name = table.schema.table_name;
            let (bumped, after) = epoch_bumped(
                progress.contents,
                database_name,
                table.schema_name,
                name,
            );
            let next = one_table_truncated(progress, mode, database_name, table);
            &&& bumped matches Err(e) ==> next.error == Some(e) && next.actions == progress.actions
            &&& next.error is None ==> bumped is Ok && next.contents == bootstrapped(after) && {
                let table_id = bumped->Ok_0.schema.table_id;
                let epoch = bumped->Ok_0.schema.table_epoch;
                let table_epoch = if epoch > 2 {
                    (epoch - 1) as u64
                } else {
                    1u64
                };
                &&& goes_on(next, progress)
                &&& next.actions.contains(ActionModel::ForgetCatalog { database_name })
                &&& next.actions.contains(ActionModel::ClearChunkMeta { table_id, table_epoch })
                &&& next.actions.contains(ActionModel::ClearChunkColumns { table_id, table_epoch })
                &&& next.actions.contains(ActionModel::ClearStatistics { table_id, table_epoch })
                &&& next.actions.contains(
                    ActionModel::ClearPrefix {
                        prefix: table_prefix(database_name, table.schema_name, name),
                    },
                )
                &&& next.actions.contains(
                    ActionModel::ClearPrefix {
                        prefix: indexes_prefix(database_name, table.schema_name, name),
                    },
                )
            }
        }),
{
    let name = table.schema.table_name;
    let (bumped, after) = epoch_bumped(progress.contents, database_name, table.schema_name, name);
    let next = one_table_truncated(progress, mode, database_name, table);
    if let Ok(entry) = bumped {
        let table_id = entry.schema.table_id;
        let table_epoch = crate::server::exec::old_epoch(entry.schema.table_epoch);
        let work = seq![ActionModel::ForgetCatalog { database_name }]
            + crate::server::exec::derived_clearing(table_id, table_epoch) + seq![
            ActionModel::ClearPrefix {
                prefix: table_prefix(database_name, table.schema_name, name),
            },
        ];
        let first = with_work(progress, after, work);
        lemma_more_work(progress, after, work);
        assert(work[0] == (ActionModel::ForgetCatalog { database_name }));
        assert(work[1] == (ActionModel::ClearChunkMeta { table_id, table_epoch }));
        assert(work[2] == (ActionModel::ClearChunkColumns { table_id, table_epoch }));
        assert(work[3] == (ActionModel::ClearStatistics { table_id, table_epoch }));
        assert(work[4] == (ActionModel::ClearPrefix {
            prefix: table_prefix(database_name, table.schema_name, name),
        }));
        assert(work.contains(work[0]) && work.contains(work[1]) && work.contains(work[2])
            && work.contains(work[3]) && work.contains(work[4]));
        let cleared = index_data_cleared(first, database_name, table.schema_name, name);
        if cleared.error is None {
            let opened = bootstrapped(after);
            let indexes = match table_found(opened, database_name, table.schema_name, name) {
                Ok(Some(found)) => indexes_listed(opened, found.schema.table_id)->Ok_0,
                _ => seq![],
            };
            let more = crate::server::exec::index_clearing(
                indexes,
                database_name,
                table.schema_name,
                name,
            );
            assert(cleared == with_work(first, opened, more));
            lemma_more_work(first, opened, more);
            assert(more.contains(more[more.len() - 1]));
            let reset = crate::server::exec::sequence_reset(
                database_name,
                table.schema_name,
                table.schema,
            );
            lemma_more_work(cleared, cleared.contents, reset);
            assert(next.actions.take(progress.actions.len() as int) =~= progress.actions) by {
                assert(first.actions.take(progress.actions.len() as int) == progress.actions);
                assert(cleared.actions.take(first.actions.len() as int) == first.actions);
                assert(cleared.actions.take(first.actions.len() as int).take(
                    progress.actions.len() as int,
                ) =~= cleared.actions.take(progress.actions.len() as int));
                assert(next.actions.take(cleared.actions.len() as int) =~= cleared.actions);
                assert(next.actions.take(cleared.actions.len() as int).take(
                    progress.actions.len() as int,
                ) =~= next.actions.take(progress.actions.len() as int));
            }
        }
    }
}

/// Emptying a table lets it count from the start again for MySQL clients alone.
pub proof fn law_counting_starts_anew_for_mysql(
    progress: Progress,
    database_name: Seq<char>,
    table: ScopedModel,
    column: ColumnModel,
    text: Seq<char>,
    sequence: Seq<char>,
)
    requires
        one_table_truncated(
            progress,
            GatewayMode::Postgres,
            database_name,
            table,
        ).error is None,
        auto_increment_column(table.schema.columns) == Some(column),
        column.default == Some(text),
        nextval_name(text) == Some(sequence),
    ensures
        one_table_truncated(progress, GatewayMode::MySql, database_name, table).actions
            == one_table_truncated(
            progress,
            GatewayMode::Postgres,
            database_name,
            table,
        ).actions.push(
            ActionModel::ResetSequence {
                database_name,
                schema_name: table.schema_name,
                sequence,
            },
        ),
{
    let postgres = one_table_truncated(progress, GatewayMode::Postgres, database_name, table);
    let mysql = one_table_truncated(progress, GatewayMode::MySql, database_name, table);
    let reset = ActionModel::ResetSequence {
        database_name,
        schema_name: table.schema_name,
        sequence,
    };
    assert(postgres.actions + seq![reset] =~= postgres.actions.push(reset));
}

proof fn lemma_sequenced(
    start: Progress,
    database_name: Seq<char>,
    schema_name: Seq<char>,
    first: i64,
    columns: Seq<ColumnModel>,
    c: int,
)
    requires
        start.error is None,
    ensures
        ({
            let next = stepped(start, columns, sequencing(database_name, schema_name, first));
            next.error is None ==> {
                &&& next.contents == start.contents
                &&& goes_on(next, start)
                &&& (0 <= c < columns.len() && columns[c].default is Some && nextval_name(
                    columns[c].default->0,
                ) is Some) ==> (scoped_name(
                    schema_name,
                    nextval_name(columns[c].default->0)->0,
                ) matches Ok(place) && next.actions.contains(
                    ActionModel::CreateSequence {
                        database_name,
                        schema_name: place.0,
                        sequence_name: place.1,
                        if_not_exists: true,
                        start: first,
                        increment: 1,
                    },
                ))
            }
        }),
    decreases columns.len(),
{
    let step = sequencing(database_name, schema_name, first);
    if columns.len() > 0 {
        let init = columns.drop_last();
        lemma_sequenced(start, database_name, schema_name, first, init, c);
        let before = stepped(start, init, step);
        let next = stepped(start, columns, step);
        if next.error is None {
            let column = columns.last();
            let work = match column.default {
                Some(text) => match nextval_name(text) {
                    Some(sequence) => match scoped_name(schema_name, sequence) {
                        Ok((sequence_schema, sequence_name)) => seq![
                            ActionModel::CreateSequence {
                                database_name,
                                schema_name: sequence_schema,
                                sequence_name,
                                if_not_exists: true,
                                start: first,
                                increment: 1,
                            },
                        ],
                        Err(_) => seq![],
                    },
                    None => seq![],
                },
                None => seq![],
            };
            lemma_more_work(before, before.contents, work);
            assert(before.actions + Seq::<ActionModel>::empty() =~= before.actions);
            assert(next.actions == before.actions + work);
            assert(next.actions.take(start.actions.len() as int) =~= start.actions) by {
                assert(before.actions.take(start.actions.len() as int) == start.actions);
            }
            if c < init.len() && 0 <= c {
                assert(init[c] == columns[c]);
            }
            if work.len() > 0 {
                assert(work.contains(work[0]));
            }
        }
    } else {
        assert(start.actions.take(start.actions.len() as int) =~= start.actions);
    }
}

/// A table that is made is stored in the catalog, each of its columns that counts has its sequence,
/// which starts where the statement says, and each of its indexes is made.
pub proof fn law_made_tables_have_what_they_need(
    contents: Contents,
    database_name: Seq<char>,
    schema_name: Seq<char>,
    table: TableModel,
    auto_increment_start: Option<i64>,
    indexes: Seq<IndexPlanModel>,
    c: int,
    i: int,
)
    ensures
        ({
            let next = table_created(
                contents,
                database_name,
                schema_name,
                table,
                auto_increment_start,
                indexes,
            );
            let (stored, after) = table_stored(contents, database_name, schema_name, table);
            &&& stored matches Err(e) ==> next.error == Some(e) && next.actions.len() == 0
            &&& next.error is None ==> {
                &&& stored is Ok && next.contents == after
                &&& (0 <= c < table.columns.len() && table.columns[c].default is Some
                    && nextval_name(table.columns[c].default->0) is Some) ==> (scoped_name(
                    schema_name,
                    nextval_name(table.columns[c].default->0)->0,
                ) matches Ok(place) && next.actions.contains(
                    ActionModel::CreateSequence {
                        database_name,
                        schema_name: place.0,
                        sequence_name: place.1,
                        if_not_exists: true,
                        start: if auto_increment_start is Some {
                            auto_increment_start->0
                        } else {
                            1
                        },
                        increment: 1,
                    },
                ))
                &&& 0 <= i < indexes.len() ==> next.actions.contains(
                    ActionModel::CreateIndex {
                        database_name,
                        schema_name,
                        table_name: table.table_name,
                        index: indexes[i],
                        if_not_exists: true,
                    },
                )
            }
        }),
{
    let (stored, after) = table_stored(contents, database_name, schema_name, table);
    if stored is Ok {
        let first = match auto_increment_start {
            Some(start) => start,
            None => 1,
        };
        let start = with_work(
            crate::server::exec::starting(contents),
            after,
            seq![ActionModel::ForgetCatalog { database_name }],
        );
        lemma_sequenced(start, database_name, schema_name, first, table.columns, c);
        let sequenced = stepped(
            start,
            table.columns,
            sequencing(database_name, schema_name, first),
        );
        let work = crate::server::exec::indexing(
            database_name,
            schema_name,
            table.table_name,
            indexes,
        );
        lemma_more_work(sequenced, sequenced.contents, work);
        if 0 <= i < indexes.len() {
            assert(work.contains(work[i]));
        }
    }
}

/// The tag of an answer.
pub open spec fn is_told(end: PlanEnd, tag: Seq<char>) -> bool {
    end matches PlanEnd::Answered(answer) && answer matches ResponseModel::Execution {
        tag: told,
        count,
    } && told == tag
}

/// A client is told what was done by the name of its statement; plans on rows are left to those
/// who have the rows.
pub proof fn law_statements_are_answered_by_name(
    contents: Contents,
    mode: GatewayMode,
    plan: PlanModel,
)
    ensures
        plan is CreateDatabase ==> is_told(executed(contents, mode, plan).1, "CREATE DATABASE"@),
        plan is CreateSchema ==> is_told(executed(contents, mode, plan).1, "CREATE SCHEMA"@),
        plan is CreateTable ==> is_told(executed(contents, mode, plan).1, "CREATE TABLE"@),
        plan is CreateSequence ==> is_told(executed(contents, mode, plan).1, "CREATE SEQUENCE"@),
        plan is CreateView ==> is_told(executed(contents, mode, plan).1, "CREATE VIEW"@),
        plan is DropTables ==> is_told(executed(contents, mode, plan).1, "DROP TABLE"@),
        plan is DropIndexes ==> is_told(executed(contents, mode, plan).1, "DROP INDEX"@),
        plan is DropViews ==> is_told(executed(contents, mode, plan).1, "DROP VIEW"@),
        plan is DropSchemas ==> is_told(executed(contents, mode, plan).1, "DROP SCHEMA"@),
        plan is DropDatabases ==> is_told(executed(contents, mode, plan).1, "DROP DATABASE"@),
        plan is TruncateTables ==> is_told(executed(contents, mode, plan).1, "TRUNCATE TABLE"@),
        plan is AnalyzeTables ==> is_told(executed(contents, mode, plan).1, "ANALYZE"@),
        plan matches PlanModel::Noop { tag } ==> is_told(executed(contents, mode, plan).1, tag),
        plan is SelectRows || plan is InsertRows || plan is UpdateRows || plan is DeleteRows ==> {
            &&& executed(contents, mode, plan).1 is Rows
            &&& executed(contents, mode, plan).0.contents == contents
            &&& executed(contents, mode, plan).0.actions.len() == 0
        },
{
}

/// A sequence that is made is the one that was planned, and each table that statistics are asked
/// for gets them anew.
pub proof fn law_planned_work_is_passed_on(
    contents: Contents,
    mode: GatewayMode,
    database_name: Seq<char>,
    schema_name: Seq<char>,
    sequence_name: Seq<char>,
    if_not_exists: bool,
    start: i64,
    increment: i64,
    tables: Seq<ScopedModel>,
    i: int,
)
    ensures
        executed(
            contents,
            mode,
            PlanModel::CreateSequence {
                database_name,
                schema_name,
                sequence_name,
                if_not_exists,
                start,
                increment,
            },
        ).0.actions == seq![
            ActionModel::CreateSequence {
                database_name,
                schema_name,
                sequence_name,
                if_not_exists,
                start,
                increment,
            },
        ],
        0 <= i < tables.len() ==> executed(
            contents,
            mode,
            PlanModel::AnalyzeTables { database_name, tables },
        ).0.actions.contains(
            ActionModel::RefreshStatistics {
                database_name,
                schema_name: tables[i].schema_name,
                schema: tables[i].schema,
            },
        ),
{
    let one = seq![
        ActionModel::CreateSequence {
            database_name,
            schema_name,
            sequence_name,
            if_not_exists,
            start,
            increment,
        },
    ];
    assert(Seq::<ActionModel>::empty() + one =~= one);
    let work = refreshing(database_name, tables);
    assert(Seq::<ActionModel>::empty() + work =~= work);
    if 0 <= i < tables.len() {
        assert(work[i] == (ActionModel::RefreshStatistics {
            database_name,
            schema_name: tables[i].schema_name,
            schema: tables[i].schema,
        }));
        assert(work.contains(work[i]));
    }
}

/// Steps are taken one by one up to the first error, which is that of all; once one has failed, no
/// other is tried.
pub proof fn law_steps_stop_at_the_first_error<T>(
    start: Progress,
    items: Seq<T>,
    step: spec_fn(Progress, T) -> Progress,
    n: int,
)
    requires
        0 <= n <= items.len(),
        stepped(start, items.take(n), step).error is Some,
    ensures
        stepped(start, items, step) == stepped(start, items.take(n), step),
    decreases items.len() - n,
{
    if n == items.len() {
        assert(items.take(n) =~= items);
    } else {
        assert(items.take(n + 1).drop_last() =~= items.take(n));
        law_steps_stop_at_the_first_error(start, items, step, n + 1);
    }
}

/// Where no step fails, each is taken from where the ones before it left off.
pub proof fn law_each_step_is_taken<T>(
    start: Progress,
    items: Seq<T>,
    step: spec_fn(Progress, T) -> Progress,
    n: int,
)
    requires
        0 <= n < items.len(),
        stepped(start, items, step).error is None,
    ensures
        stepped(start, items.take(n), step).error is None,
        stepped(start, items.take(n + 1), step) == step(
            stepped(start, items.take(n), step),
            items[n],
        ),
{
    assert(items.take(n + 1).drop_last() =~= items.take(n));
    assert(items.take(n + 1).last() == items[n]);
    if stepped(start, items.take(n), step).error is Some {
        law_steps_stop_at_the_first_error(start, items, step, n);
    }
}

} // verus!
