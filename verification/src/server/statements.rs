//! The planning of statements.
use vstd::prelude::*;

use crate::catalog::codec::database_name_path;
use crate::catalog::model::{at, bootstrapped, database_found, law_bootstrap_is_stable, no_database};
use crate::error::{
    not_internal, report, unsupported, unsupported_report, user_error, Report, UserError,
};
use crate::mem_store::{Contents, KvStore};
use crate::mode::GatewayMode;
use crate::names::{object_name, schema_name_of, ObjectName, PartModel, SchemaName};
use crate::schema::{option_view, seen, views, Duplicate};
use crate::server::ast::{
    AlterTableOperation, ColumnDef, IndexColumn, SequenceOption, TableConstraint,
};
use crate::server::ddl_columns::two_texts;
use crate::server::ddl_plan::{
    alter_planned, create_index_planned, create_sequence_planned, each_resolved, index_to_drop,
    object_to_drop, objects_to_drop, plan_create_database, plan_create_schema, plan_create_view,
    plan_drop_schema, plan_drop_sequence, plan_drop_view, table_to_drop,
};
use crate::server::ddl_tables::{create_table_planned, table_like_planned};
use crate::server::dml_insert::{analyze_planned, existing_tables, maintenance_planned};
use crate::server::explain::plan_explained;
use crate::server::gateway::{only_opened, GatewayServer};
use crate::server::literals::{FloatText, FloatTextModel};
use crate::server::plan::{option_views, PlanModel, QueryPlan};
use crate::text::mark_at;

verus! {

/// Where a session looks for objects.
#[derive(Debug)]
pub struct SessionCatalog {
    pub database_name: String,
    pub schema_name: String,
    pub search_path: Vec<String>,
}

/// What a [`SessionCatalog`] says.
pub struct SessionScope {
    pub database_name: Seq<char>,
    pub schema_name: Seq<char>,
    pub search_path: Seq<Seq<char>>,
}

impl View for SessionCatalog {
    type V = SessionScope;

    open spec fn view(&self) -> SessionScope {
        SessionScope {
            database_name: self.database_name@,
            schema_name: self.schema_name@,
            search_path: views(self.search_path@),
        }
    }
}

/// What a new table is made from.
#[derive(Debug)]
pub enum TableSource {
    /// The result of a query.
    Query,
    /// Another table.
    Like(ObjectName),
    /// Declarations.
    Declared { columns: Vec<ColumnDef>, constraints: Vec<TableConstraint> },
}

/// Kinds of objects that can be dropped.
#[derive(Clone, Copy, Debug, PartialEq, Eq, Structural)]
pub enum ObjectType {
    Table,
    Index,
    Sequence,
    View,
    Schema,
    Role,
    Other,
}

/// A statement, as far as its plan depends on it.
#[derive(Debug)]
#[allow(inconsistent_fields)]
pub enum Statement {
    CreateView {
        materialized: bool,
        name: ObjectName,
        definition: String,
        or_replace: bool,
        if_not_exists: bool,
    },
    CreateRole,
    Grant,
    Revoke,
    CreateDatabase { name: ObjectName, if_not_exists: bool },
    CreateSchema { name: SchemaName, if_not_exists: bool },
    CreateTable {
        name: ObjectName,
        if_not_exists: bool,
        source: TableSource,
        auto_increment_start: Option<i64>,
    },
    CreateSequence {
        temporary: bool,
        if_not_exists: bool,
        name: ObjectName,
        options: Vec<SequenceOption>,
    },
    AlterTable { name: ObjectName, operations: Vec<AlterTableOperation> },
    CreateIndex {
        name: Option<ObjectName>,
        table_name: ObjectName,
        using: Option<String>,
        columns: Vec<IndexColumn>,
        unique: bool,
        concurrently: bool,
        if_not_exists: bool,
        includes: usize,
        has_predicate: bool,
    },
    Drop { object_type: ObjectType, if_exists: bool, names: Vec<ObjectName> },
    Truncate { names: Vec<ObjectName> },
    Analyze { table_name: Option<ObjectName> },
    Vacuum,
    OptimizeTable { name: ObjectName },
    Explain { statement: Box<Statement> },
    /// An insertion, a query, an update or a deletion, which are planned against rows and filters.
    OnRows,
    /// Any other, by its text.
    Other { text: String },
}

/// A plan, or the word that a statement is planned against rows and filters.
pub enum StatementPlan {
    Planned(QueryPlan),
    OnRows,
}

/// What a [`StatementPlan`] says.
pub enum StatementPlanModel {
    Planned(PlanModel),
    OnRows,
}

impl View for StatementPlan {
    type V = StatementPlanModel;

    open spec fn view(&self) -> StatementPlanModel {
        match *self {
            StatementPlan::Planned(plan) => StatementPlanModel::Planned(plan@),
            StatementPlan::OnRows => StatementPlanModel::OnRows,
        }
    }
}

/// The tables that `VACUUM` is to take statistics of, by the statement that its target was read
/// as: all tables, where that names none.
pub open spec fn vacuum_tables(parsed: Option<Statement>) -> Result<
    Option<Seq<Seq<PartModel>>>,
    Report,
> {
    match parsed {
        Some(Statement::Analyze { table_name: None }) => Ok(None),
        Some(Statement::Analyze { table_name: Some(name) }) => Ok(Some(seq![name@])),
        _ => Err(report("42601"@, "invalid VACUUM ANALYZE target"@)),
    }
}

/// The tables that `VACUUM` is to take statistics of, by the statement that its target was read
/// as.
pub fn vacuum_analyze_table_names(parsed: &Option<Statement>) -> (result: Result<
    Option<Vec<ObjectName>>,
    UserError,
>)
    ensures
        match result {
            Ok(names) => vacuum_tables(*parsed) == Ok::<Option<Seq<Seq<PartModel>>>, Report>(
                option_views(names),
            ),
            Err(error) => vacuum_tables(*parsed) == Err::<Option<Seq<Seq<PartModel>>>, Report>(
                error@,
            ),
        },
{
    match parsed {
        Some(Statement::Analyze { table_name }) => match table_name {
            None => Ok(None),
            Some(name) => Ok(Some(one_name(name))),
        },
        _ => Err(user_error("42601", "invalid VACUUM ANALYZE target")),
    }
}

/// Whether a statement drops indexes that need not be there by names without a schema: these
/// are taken to be in the first schema of the search path.
pub open spec fn needs_search_path(statement: Statement) -> bool
    decreases statement,
{
    match statement {
        Statement::Drop { object_type, if_exists, names } => object_type == ObjectType::Index
            && if_exists && exists|i: int|
            0 <= i < names@.len() && (object_name((#[trigger] names@[i])@) matches Ok(text)
                && mark_at(text, '.') is None),
        Statement::Explain { statement } => needs_search_path(*statement),
        _ => false,
    }
}

/// A plan as the outcome of planning.
pub open spec fn planned(plan: Result<PlanModel, Report>) -> Result<StatementPlanModel, Report> {
    match plan {
        Ok(plan) => Ok(StatementPlanModel::Planned(plan)),
        Err(e) => Err(e),
    }
}

/// The plan of a statement that drops objects.
pub open spec fn drop_planned(
    contents: Contents,
    scope: SessionScope,
    object_type: ObjectType,
    names: Seq<Seq<PartModel>>,
    if_exists: bool,
) -> Result<PlanModel, Report> {
    match object_type {
        ObjectType::Table => match each_resolved(
            names,
            |name: Seq<PartModel>|
                table_to_drop(contents, scope.database_name, scope.search_path, name, if_exists),
        ) {
            Err(e) => Err(e),
            Ok(tables) => Ok(
                PlanModel::DropTables { database_name: scope.database_name, tables, if_exists },
            ),
        },
        ObjectType::Index => match database_found(contents, scope.database_name) {
            Err(e) => Err(e),
            Ok(None) => Err(no_database(scope.database_name)),
            Ok(Some(database)) => match each_resolved(
                names,
                |name: Seq<PartModel>|
                    index_to_drop(
                        contents,
                        database.database_id,
                        scope.search_path,
                        name,
                        if_exists,
                    ),
            ) {
                Err(e) => Err(e),
                Ok(indexes) => Ok(
                    PlanModel::DropIndexes {
                        database_name: scope.database_name,
                        indexes,
                        if_exists,
                    },
                ),
            },
        },
        ObjectType::Sequence => match objects_to_drop(scope.schema_name, names) {
            Err(e) => Err(e),
            Ok(sequences) => Ok(
                PlanModel::DropSequences {
                    database_name: scope.database_name,
                    sequences,
                    if_exists,
                },
            ),
        },
        ObjectType::View => match objects_to_drop(scope.schema_name, names) {
            Err(e) => Err(e),
            Ok(found) => Ok(
                PlanModel::DropViews {
                    database_name: scope.database_name,
                    views: found,
                    if_exists,
                },
            ),
        },
        ObjectType::Schema => match each_resolved(
            names,
            |name: Seq<PartModel>| object_name(name),
        ) {
            Err(e) => Err(e),
            Ok(schemas) => Ok(
                PlanModel::DropSchemas { database_name: scope.database_name, schemas, if_exists },
            ),
        },
        ObjectType::Role => Ok(PlanModel::DropDatabases { databases: seq![], if_exists: true }),
        ObjectType::Other => Err(unsupported_report("DROP object type is not supported yet"@)),
    }
}

/// The plan of a statement, and the contents of the catalog afterwards.
pub open spec fn statement_planned(
    contents: Contents,
    mode: GatewayMode,
    scope: SessionScope,
    statement: Statement,
    floats: Seq<FloatTextModel>,
) -> (Result<StatementPlanModel, Report>, Contents)
    decreases statement,
{
    match statement {
        Statement::CreateView { materialized, name, definition, or_replace, if_not_exists } => (
            if materialized {
                Err(unsupported_report("materialized views are not supported yet"@))
            } else {
                match object_to_drop(scope.schema_name, name@) {
                    Err(e) => Err(e),
                    Ok(place) => Ok(
                        StatementPlanModel::Planned(
                            PlanModel::CreateView {
                                database_name: scope.database_name,
                                schema_name: place.schema_name,
                                view_name: place.name,
                                definition: definition@,
                                or_replace,
                                if_not_exists,
                            },
                        ),
                    ),
                }
            },
            contents,
        ),
        Statement::CreateRole => (
            Err(unsupported_report("CREATE ROLE is not supported yet"@)),
            contents,
        ),
        Statement::Grant => (Err(unsupported_report("GRANT is not supported yet"@)), contents),
        Statement::Revoke => (Err(unsupported_report("REVOKE is not supported yet"@)), contents),
        Statement::CreateDatabase { name, if_not_exists } => (
            match object_name(name@) {
                Err(e) => Err(e),
                Ok(database_name) => Ok(
                    StatementPlanModel::Planned(
                        PlanModel::CreateDatabase { database_name, if_not_exists },
                    ),
                ),
            },
            contents,
        ),
        Statement::CreateSchema { name, if_not_exists } => (
            match schema_name_of(name@) {
                Err(e) => Err(e),
                Ok(schema_name) => Ok(
                    StatementPlanModel::Planned(
                        PlanModel::CreateSchema {
                            database_name: scope.database_name,
                            schema_name,
                            if_not_exists,
                        },
                    ),
                ),
            },
            contents,
        ),
        Statement::CreateTable { name, if_not_exists, source, auto_increment_start } =>
            match source {
            TableSource::Query => (Ok(StatementPlanModel::OnRows), contents),
            TableSource::Like(like) => {
                let (plan, after) = table_like_planned(
                    contents,
                    scope.database_name,
                    scope.schema_name,
                    scope.search_path,
                    name@,
                    if_not_exists,
                    like@,
                    auto_increment_start,
                );
                (planned(plan), after)
            },
            TableSource::Declared { columns, constraints } => {
                let (plan, after) = create_table_planned(
                    contents,
                    scope.database_name,
                    scope.schema_name,
                    name@,
                    views(columns@),
                    views(constraints@),
                    if_not_exists,
                    auto_increment_start,
                );
                (planned(plan), after)
            },
        },
        Statement::CreateSequence { temporary, if_not_exists, name, options } => (
            if temporary {
                Err(unsupported_report("temporary sequences are not supported yet"@))
            } else {
                planned(
                    create_sequence_planned(
                        contents,
                        scope.database_name,
                        scope.schema_name,
                        name@,
                        if_not_exists,
                        views(options@),
                    ),
                )
            },
            contents,
        ),
        Statement::AlterTable { name, operations } => (
            planned(
                alter_planned(
                    contents,
                    scope.database_name,
                    scope.search_path,
                    name@,
                    views(operations@),
                ),
            ),
            contents,
        ),
        Statement::CreateIndex {
            name,
            table_name,
            using,
            columns,
            unique,
            concurrently,
            if_not_exists,
            includes,
            has_predicate,
        } => (
            planned(
                create_index_planned(
                    contents,
                    scope.database_name,
                    scope.search_path,
                    option_view(name),
                    table_name@,
                    option_view(using),
                    views(columns@),
                    unique,
                    concurrently,
                    if_not_exists,
                    includes as nat,
                    has_predicate,
                ),
            ),
            contents,
        ),
        Statement::Drop { object_type, if_exists, names } => (
            planned(drop_planned(contents, scope, object_type, views(names@), if_exists)),
            contents,
        ),
        Statement::Truncate { names } => (
            match existing_tables(
                contents,
                scope.database_name,
                scope.search_path,
                views(names@),
            ) {
                Err(e) => Err(e),
                Ok(tables) => Ok(
                    StatementPlanModel::Planned(
                        PlanModel::TruncateTables { database_name: scope.database_name, tables },
                    ),
                ),
            },
            contents,
        ),
        Statement::Analyze { table_name } => (
            if mode == GatewayMode::MySql {
                match table_name {
                    None => Err(unsupported_report("bare ANALYZE is not supported yet"@)),
                    Some(name) => planned(
                        maintenance_planned(
                            contents,
                            mode,
                            scope.database_name,
                            scope.search_path,
                            "analyze"@,
                            seq![name@],
                        ),
                    ),
                }
            } else {
                planned(
                    analyze_planned(
                        contents,
                        scope.database_name,
                        scope.search_path,
                        match table_name {
                            None => None,
                            Some(name) => Some(seq![name@]),
                        },
                    ),
                )
            },
            contents,
        ),
        Statement::Vacuum => (
            if mode == GatewayMode::MySql {
                Err(unsupported_report("VACUUM is not supported in MySQL mode"@))
            } else {
                Ok(StatementPlanModel::Planned(PlanModel::Noop { tag: "VACUUM"@ }))
            },
            contents,
        ),
        Statement::OptimizeTable { name } => (
            planned(
                maintenance_planned(
                    contents,
                    mode,
                    scope.database_name,
                    scope.search_path,
                    "optimize"@,
                    seq![name@],
                ),
            ),
            contents,
        ),
        Statement::Explain { statement } => {
            let (inner, after) = statement_planned(contents, mode, scope, *statement, floats);
            (
                match inner {
                    Ok(StatementPlanModel::Planned(plan)) => planned(
                        plan_explained(bootstrapped(after), mode, plan, floats),
                    ),
                    other => other,
                },
                after,
            )
        },
        Statement::OnRows => (Ok(StatementPlanModel::OnRows), contents),
        Statement::Other { text } => (
            Err(unsupported_report("statement not supported in fast path: "@ + text@)),
            contents,
        ),
    }
}

fn one_name(name: &ObjectName) -> (names: Vec<ObjectName>)
    ensures
        views(names@) == seq![name@],
{
    let mut names: Vec<ObjectName> = Vec::new();
    names.push(name.duplicate());
    assert(views(names@) =~= seq![name@]);
    names
}

fn as_planned(result: Result<QueryPlan, UserError>) -> (out: Result<StatementPlan, UserError>)
    ensures
        seen(out) == planned(seen(result)),
{
    match result {
        Ok(plan) => Ok(StatementPlan::Planned(plan)),
        Err(e) => Err(e),
    }
}

impl<S: KvStore> GatewayServer<S> {
    /// Plans that objects are dropped.
    fn plan_drop(
        &mut self,
        session: &SessionCatalog,
        object_type: ObjectType,
        names: &Vec<ObjectName>,
        if_exists: bool,
    ) -> (result: Result<QueryPlan, UserError>)
        requires
            session.search_path@.len() > 0 || object_type != ObjectType::Index || !if_exists
                || forall|i: int|
                0 <= i < names@.len() ==> (object_name((#[trigger] names@[i])@) matches Ok(text)
                    ==> mark_at(text, '.') is Some),
        ensures
            final(self).reliable() == old(self).reliable(),
            final(self).same_sessions(old(self)),
            not_internal(result) || old(self).reliable() ==> only_opened(
                old(self).contents(),
                final(self).contents(),
            ) && seen(result) == drop_planned(
                bootstrapped(old(self).contents()),
                session@,
                object_type,
                views(names@),
                if_exists,
            ),
    {
        proof {
            law_bootstrap_is_stable(self.contents());
        }
        match object_type {
            ObjectType::Table => self.plan_drop_table(
                session.database_name.as_str(),
                &session.search_path,
                names,
                if_exists,
            ),
            ObjectType::Index => self.plan_drop_index(
                session.database_name.as_str(),
                &session.search_path,
                names,
                if_exists,
            ),
            ObjectType::Sequence => plan_drop_sequence(
                session.database_name.as_str(),
                session.schema_name.as_str(),
                names,
                if_exists,
            ),
            ObjectType::View => plan_drop_view(
                session.database_name.as_str(),
                session.schema_name.as_str(),
                names,
                if_exists,
            ),
            ObjectType::Schema => plan_drop_schema(
                session.database_name.as_str(),
                names,
                if_exists,
            ),
            ObjectType::Role => {
                let databases: Vec<String> = Vec::new();
                assert(views(databases@) =~= Seq::<Seq<char>>::empty());
                Ok(QueryPlan::DropDatabases { databases, if_exists: true })
            },
            ObjectType::Other => Err(unsupported("DROP object type is not supported yet")),
        }
    }

    /// Plans a statement. One on rows is planned against them by other means, and so is one that
    /// makes a table from a query; where such a statement is to be explained, its plan is. The
    /// catalog is opened before anything else, so that the default database is there afterwards.
    #[verifier::rlimit(80)]
    #[verifier::spinoff_prover]
    pub fn plan_statement(
        &mut self,
        session: &SessionCatalog,
        statement: &Statement,
        floats: &Vec<FloatText>,
    ) -> (result: Result<StatementPlan, UserError>)
        requires
            session.search_path@.len() > 0 || !needs_search_path(*statement),
        ensures
            final(self).reliable() == old(self).reliable(),
            final(self).same_sessions(old(self)),
            not_internal(result) || old(self).reliable() ==> {
                let found = statement_planned(
                    bootstrapped(old(self).contents()),
                    old(self).mode,
                    session@,
                    *statement,
                    views(floats@),
                );
                seen(result) == found.0 && final(self).contents() == found.1 && at(
                    final(self).contents(),
                    database_name_path("defaultdb"@),
                ) is Some
            },
        decreases statement,
    {
        proof {
            law_bootstrap_is_stable(self.contents());
        }
        match self.catalog.ensure_bootstrap() {
            Err(e) => {
                return Err(e);
            },
            Ok(_) => {},
        }
        match statement {
            Statement::CreateView { materialized, name, definition, or_replace, if_not_exists } => {
                if *materialized {
                    return Err(unsupported("materialized views are not supported yet"));
                }
                as_planned(
                    plan_create_view(
                        session.database_name.as_str(),
                        session.schema_name.as_str(),
                        name,
                        definition.as_str(),
                        *or_replace,
                        *if_not_exists,
                    ),
                )
            },
            Statement::CreateRole => Err(unsupported("CREATE ROLE is not supported yet")),
            Statement::Grant => Err(unsupported("GRANT is not supported yet")),
            Statement::Revoke => Err(unsupported("REVOKE is not supported yet")),
            Statement::CreateDatabase { name, if_not_exists } => as_planned(
                plan_create_database(name, *if_not_exists),
            ),
            Statement::CreateSchema { name, if_not_exists } => as_planned(
                plan_create_schema(session.database_name.as_str(), name, *if_not_exists),
            ),
            Statement::CreateTable { name, if_not_exists, source, auto_increment_start } =>
                match source {
                TableSource::Query => Ok(StatementPlan::OnRows),
                TableSource::Like(like) => as_planned(
                    self.plan_create_table_like(
                        session.database_name.as_str(),
                        session.schema_name.as_str(),
                        &session.search_path,
                        name,
                        *if_not_exists,
                        like,
                        *auto_increment_start,
                    ),
                ),
                TableSource::Declared { columns, constraints } => as_planned(
                    self.plan_create_table(
                        session.database_name.as_str(),
                        session.schema_name.as_str(),
                        name,
                        columns,
                        constraints,
                        *if_not_exists,
                        *auto_increment_start,
                    ),
                ),
            },
            Statement::CreateSequence { temporary, if_not_exists, name, options } => {
                if *temporary {
                    return Err(unsupported("temporary sequences are not supported yet"));
                }
                as_planned(
                    self.plan_create_sequence(
                        session.database_name.as_str(),
                        session.schema_name.as_str(),
                        name,
                        *if_not_exists,
                        options,
                    ),
                )
            },
            Statement::AlterTable { name, operations } => as_planned(
                self.plan_alter_table(
                    session.database_name.as_str(),
                    &session.search_path,
                    name,
                    operations,
                ),
            ),
            Statement::CreateIndex {
                name,
                table_name,
                using,
                columns,
                unique,
                concurrently,
                if_not_exists,
                includes,
                has_predicate,
            } => as_planned(
                self.plan_create_index(
                    session.database_name.as_str(),
                    &session.search_path,
                    name,
                    table_name,
                    using,
                    columns,
                    *unique,
                    *concurrently,
                    *if_not_exists,
                    *includes,
                    *has_predicate,
                ),
            ),
            Statement::Drop { object_type, if_exists, names } => {
                as_planned(self.plan_drop(session, *object_type, names, *if_exists))
            },
            Statement::Truncate { names } => as_planned(
                self.plan_truncate_table(
                    session.database_name.as_str(),
                    &session.search_path,
                    names,
                ),
            ),
            Statement::Analyze { table_name } => {
                if self.mode == GatewayMode::MySql {
                    match table_name {
                        None => Err(unsupported("bare ANALYZE is not supported yet")),
                        Some(name) => as_planned(
                            self.plan_mysql_table_maintenance(
                                session.database_name.as_str(),
                                &session.search_path,
                                "analyze",
                                &one_name(name),
                            ),
                        ),
                    }
                } else {
                    let names = match table_name {
                        None => None,
                        Some(name) => Some(one_name(name)),
                    };
                    as_planned(
                        self.plan_postgres_analyze(
                            session.database_name.as_str(),
                            &session.search_path,
                            &names,
                        ),
                    )
                }
            },
            Statement::Vacuum => {
                if self.mode == GatewayMode::MySql {
                    return Err(unsupported("VACUUM is not supported in MySQL mode"));
                }
                Ok(StatementPlan::Planned(QueryPlan::Noop { tag: "VACUUM".to_string() }))
            },
            Statement::OptimizeTable { name } => as_planned(
                self.plan_mysql_table_maintenance(
                    session.database_name.as_str(),
                    &session.search_path,
                    "optimize",
                    &one_name(name),
                ),
            ),
            Statement::Explain { statement } => {
                match self.plan_statement(session, statement, floats) {
                    Err(e) => Err(e),
                    Ok(StatementPlan::OnRows) => Ok(StatementPlan::OnRows),
                    Ok(StatementPlan::Planned(plan)) => as_planned(
                        self.explain_plan(&plan, floats),
                    ),
                }
            },
            Statement::OnRows => Ok(StatementPlan::OnRows),
            Statement::Other { text } => {
                let message = two_texts("statement not supported in fast path: ", text.as_str());
                Err(unsupported(message.as_str()))
            },
        }
    }
}

} // verus!
