//! Plans for insertions, and for statements on whole tables.
use vstd::prelude::*;

use crate::catalog::model::{
    bootstrapped, counted, law_bootstrap_is_stable, next_number, scope_found, tables_listed,
};
use crate::catalog::types::TableEntry;
use crate::error::{not_internal, unsupported, unsupported_report, Report, UserError};
use crate::mem_store::{Contents, KvStore};
use crate::mode::GatewayMode;
use crate::names::{ObjectName, ObjectNamePart, PartModel};
use crate::row::{RowMap, RowModel};
use crate::schema::{
    contains_name, duplicate_all, normalized, option_view, seen, seen_all, views, CheckModel,
    ColumnModel, ColumnSchema, Duplicate, ForeignKeyModel, TableModel, TableSchema, UniqueModel,
};
use crate::server::conflict::{conflict_resolved, reads_keys, OnInsert, OnInsertModel};
use crate::server::ddl_columns::{low_bits, ordinal_behind, two_texts};
use crate::server::ddl_plan::{each_resolved, lemma_each_fails};
use crate::server::ddl_tables::TABLE_COUNTER;
use crate::server::dml_select::seen_returning;
use crate::server::gateway::{
    existing_table, is_misnamed, is_misreferred, only_opened, resolve_scoped_name, scoped_name,
    table_resolved, GatewayServer,
};
use crate::server::plan::{
    PlanModel, QueryPlan, ReturningModel, ReturningProjection, ScopedModel, ScopedTable, TextRow,
};
use crate::text::{decimal, decimal_text, same_text, three_texts, upper, upper_text};
use crate::types::{type_code, DataType};

verus! {

/// The column that a part of an insertion names.
pub open spec fn insert_column(name: Seq<PartModel>) -> Result<Seq<char>, Report> {
    if name.len() != 1 {
        Err(unsupported_report("INSERT fast-path only supports unqualified column names"@))
    } else {
        match name[0] {
            PartModel::Identifier(ident) => Ok(ident.value),
            PartModel::Function(text) => Err(
                unsupported_report("INSERT fast-path only supports identifier column names"@),
            ),
        }
    }
}

/// The columns that an insertion names.
pub open spec fn insert_columns(names: Seq<Seq<PartModel>>) -> Result<Seq<Seq<char>>, Report> {
    each_resolved(names, |name: Seq<PartModel>| insert_column(name))
}

/// The columns that an insertion names.
pub fn insert_columns_to_idents(columns: &Vec<ObjectName>) -> (result: Result<
    Vec<String>,
    UserError,
>)
    ensures
        seen_all(result) == insert_columns(views(columns@)),
{
    let ghost all = views(columns@);
    let ghost resolve = |name: Seq<PartModel>| insert_column(name);
    let mut names: Vec<String> = Vec::new();
    let mut i: usize = 0;
    assert(all.take(0) =~= Seq::<Seq<PartModel>>::empty());
    assert(views(names@) =~= Seq::<Seq<char>>::empty());
    while i < columns.len()
        invariant
            i <= columns@.len(),
            all == views(columns@),
            resolve == (|name: Seq<PartModel>| insert_column(name)),
            each_resolved(all.take(i as int), resolve) == Ok::<Seq<Seq<char>>, Report>(
                views(names@),
            ),
        decreases columns@.len() - i,
    {
        assert(all.take(i + 1).drop_last() =~= all.take(i as int));
        assert(all.take(i + 1).last() == columns@[i as int]@);
        proof {
            if each_resolved(all.take(i + 1), resolve) is Err {
                lemma_each_fails(all, resolve, i + 1);
            }
        }
        let parts = &columns[i].0;
        if parts.len() != 1 {
            return Err(unsupported("INSERT fast-path only supports unqualified column names"));
        }
        assert(columns@[i as int]@[0] == parts@[0]@);
        match &parts[0] {
            ObjectNamePart::Identifier(ident) => {
                let ghost before = views(names@);
                let ghost added = ident.value@;
                names.push(ident.value.clone());
                assert(views(names@) =~= before.push(added));
            },
            ObjectNamePart::Function(_) => {
                return Err(unsupported("INSERT fast-path only supports identifier column names"));
            },
        }
        i += 1;
    }
    assert(all.take(i as int) =~= all);
    Ok(names)
}

/// The columns of a table that an insertion makes: those that it names, or else one for each
/// value of its first row.
pub open spec fn declared_columns(columns: Seq<Seq<char>>, width: nat) -> Seq<Seq<char>> {
    if columns.len() > 0 {
        columns
    } else {
        Seq::new(width, |i: int| "col"@ + decimal((i + 1) as nat))
    }
}

/// The table that an insertion into no table makes: texts, with a key `id`.
pub open spec fn inferred_table(table_id: u32, table_name: Seq<char>, columns: Seq<Seq<char>>) -> TableModel {
    normalized(
        TableModel {
            table_name,
            table_id,
            schema_version: 1,
            table_epoch: 1,
            primary_key: "id"@,
            check_constraints: seq![],
            unique_constraints: seq![],
            foreign_keys: seq![],
            columns: Seq::new(
                columns.len(),
                |i: int|
                    ColumnModel {
                        column_id: low_bits((i + 1) as nat),
                        name: columns[i],
                        data_type: type_code(DataType::Text),
                        primary_key: columns[i] == "id"@,
                        nullable: columns[i] != "id"@,
                        default: None,
                        on_update: None,
                        character_set: None,
                        collation: None,
                    },
            ),
        },
    )
}

/// The table that an insertion into no table makes.
pub fn infer_table(table_id: u32, table_name: &str, columns: &Vec<String>) -> (table: TableSchema)
    ensures
        table@ == inferred_table(table_id, table_name@, views(columns@)),
{
    let ghost names = views(columns@);
    let mut described: Vec<ColumnSchema> = Vec::new();
    let mut i: usize = 0;
    while i < columns.len()
        invariant
            i <= columns@.len(),
            names == views(columns@),
            described@.len() == i,
            forall|k: int|
                0 <= k < i ==> (#[trigger] described@[k])@ == (ColumnModel {
                    column_id: low_bits((k + 1) as nat),
                    name: names[k],
                    data_type: type_code(DataType::Text),
                    primary_key: names[k] == "id"@,
                    nullable: names[k] != "id"@,
                    default: None,
                    on_update: None,
                    character_set: None,
                    collation: None,
                }),
        decreases columns@.len() - i,
    {
        assert(names[i as int] == columns@[i as int]@);
        let is_key = same_text(columns[i].as_str(), "id");
        described.push(
            ColumnSchema {
                column_id: ordinal_behind(i, 0),
                name: columns[i].clone(),
                data_type: DataType::Text,
                primary_key: is_key,
                nullable: !is_key,
                default: None,
                on_update: None,
                character_set: None,
                collation: None,
            },
        );
        i += 1;
    }
    let mut table = TableSchema {
        table_name: table_name.to_string(),
        table_id,
        schema_version: 1,
        table_epoch: 1,
        primary_key: "id".to_string(),
        check_constraints: Vec::new(),
        unique_constraints: Vec::new(),
        foreign_keys: Vec::new(),
        columns: described,
    };
    assert(table@.check_constraints =~= Seq::<CheckModel>::empty());
    assert(table@.unique_constraints =~= Seq::<UniqueModel>::empty());
    assert(table@.foreign_keys =~= Seq::<ForeignKeyModel>::empty());
    assert(table@.columns =~= Seq::new(
        names.len(),
        |i: int|
            ColumnModel {
                column_id: low_bits((i + 1) as nat),
                name: names[i],
                data_type: type_code(DataType::Text),
                primary_key: names[i] == "id"@,
                nullable: names[i] != "id"@,
                default: None,
                on_update: None,
                character_set: None,
                collation: None,
            },
    ));
    table.normalize_descriptor();
    table
}

/// The columns of a table that an insertion makes.
fn declare_columns(columns: &Vec<String>, width: usize) -> (declared: Vec<String>)
    ensures
        views(declared@) == declared_columns(views(columns@), width as nat),
{
    if columns.len() > 0 {
        return duplicate_all(columns);
    }
    let mut declared: Vec<String> = Vec::new();
    let mut i: usize = 0;
    while i < width
        invariant
            i <= width,
            declared@.len() == i,
            forall|k: int|
                0 <= k < i ==> (#[trigger] declared@[k])@ == "col"@ + decimal((k + 1) as nat),
        decreases width - i,
    {
        let number: u64 = i as u64 + 1;
        declared.push(two_texts("col", decimal_text(number).as_str()));
        i += 1;
    }
    assert(views(declared@) =~= declared_columns(views(columns@), width as nat));
    declared
}

/// The table of an insertion: the one that is there, or else one that the insertion makes, which
/// takes an identifier from the catalog.
pub open spec fn insert_table(
    contents: Contents,
    database_name: Seq<char>,
    default_schema: Seq<char>,
    table_name: Seq<char>,
    existing: Option<TableModel>,
    columns: Seq<Seq<char>>,
    width: nat,
) -> (Result<TableModel, Report>, Contents) {
    match existing {
        Some(table) => (Ok(table), contents),
        None => if !declared_columns(columns, width).contains("id"@) {
            (
                Err(
                    unsupported_report(
                        "INSERT into a schema-less table requires an 'id' column"@,
                    ),
                ),
                contents,
            )
        } else {
            match scoped_name(default_schema, table_name) {
                Err(e) => (Err(e), contents),
                Ok((schema_name, name)) => match scope_found(
                    contents,
                    database_name,
                    schema_name,
                ) {
                    Err(e) => (Err(e), contents),
                    Ok(scope) => (
                        Ok(
                            inferred_table(
                                next_number(contents, TABLE_COUNTER@),
                                name,
                                declared_columns(columns, width),
                            ),
                        ),
                        counted(contents, TABLE_COUNTER@),
                    ),
                },
            }
        },
    }
}

/// The table of an insertion, with its schema.
pub struct InsertTarget {
    pub schema_name: String,
    pub schema: TableSchema,
    pub columns: Vec<String>,
}

/// What an [`InsertTarget`] says.
pub struct InsertTargetModel {
    pub schema_name: Seq<char>,
    pub schema: TableModel,
    pub columns: Seq<Seq<char>>,
}

impl View for InsertTarget {
    type V = InsertTargetModel;

    open spec fn view(&self) -> InsertTargetModel {
        InsertTargetModel {
            schema_name: self.schema_name@,
            schema: self.schema@,
            columns: views(self.columns@),
        }
    }
}

/// The table of an insertion, with its schema and the columns that it names.
pub open spec fn insert_begun(
    contents: Contents,
    database_name: Seq<char>,
    search_path: Seq<Seq<char>>,
    table: Option<Seq<char>>,
    columns: Seq<Seq<PartModel>>,
    width: nat,
    ignore: bool,
    replace_into: bool,
) -> (Result<InsertTargetModel, Report>, Contents) {
    match table {
        None => (
            Err(unsupported_report("INSERT fast-path requires a table name"@)),
            contents,
        ),
        Some(table_name) => match insert_columns(columns) {
            Err(e) => (Err(e), contents),
            Ok(names) => if ignore && replace_into {
                (
                    Err(unsupported_report("INSERT IGNORE cannot be combined with REPLACE"@)),
                    contents,
                )
            } else {
                match table_resolved(contents, database_name, search_path, table_name) {
                    Err(e) => (Err(e), contents),
                    Ok((schema_name, existing)) => {
                        let (found, after) = insert_table(
                            contents,
                            database_name,
                            schema_name,
                            table_name,
                            existing,
                            names,
                            width,
                        );
                        (
                            match found {
                                Err(e) => Err(e),
                                Ok(schema) => Ok(
                                    InsertTargetModel { schema_name, schema, columns: names },
                                ),
                            },
                            after,
                        )
                    },
                }
            },
        },
    }
}

/// The rows of an insertion, from what it gives them by.
pub open spec fn insert_rows(
    by_assignments: bool,
    by_source: bool,
    names_columns: bool,
    rows: Result<Seq<RowModel>, Report>,
) -> Result<Seq<RowModel>, Report> {
    if by_assignments && (by_source || names_columns) {
        Err(
            unsupported_report("INSERT ... SET cannot be combined with column list or VALUES"@),
        )
    } else if !by_assignments && !by_source {
        Err(unsupported_report("INSERT fast-path requires VALUES, SELECT, or SET"@))
    } else {
        rows
    }
}

/// The plan of an insertion.
pub open spec fn insert_planned(
    contents: Contents,
    database_name: Seq<char>,
    target: InsertTargetModel,
    by_assignments: bool,
    by_source: bool,
    rows: Result<Seq<RowModel>, Report>,
    on: Option<OnInsertModel>,
    ignore: bool,
    replace_into: bool,
    returning: Result<Option<Seq<ReturningModel>>, Report>,
) -> Result<PlanModel, Report> {
    match insert_rows(by_assignments, by_source, target.columns.len() > 0, rows) {
        Err(e) => Err(e),
        Ok(found) => match conflict_resolved(contents, target.schema, on, ignore, replace_into) {
            Err(e) => Err(e),
            Ok(on_conflict) => match returning {
                Err(e) => Err(e),
                Ok(items) => Ok(
                    PlanModel::InsertRows {
                        database_name,
                        schema_name: target.schema_name,
                        schema: target.schema,
                        rows: found,
                        on_conflict,
                        returning: items,
                    },
                ),
            },
        },
    }
}

/// Tables that have to be there, by their names.
pub open spec fn existing_tables(
    contents: Contents,
    database_name: Seq<char>,
    search_path: Seq<Seq<char>>,
    names: Seq<Seq<PartModel>>,
) -> Result<Seq<ScopedModel>, Report> {
    each_resolved(
        names,
        |name: Seq<PartModel>|
            scoped_table(existing_table(contents, database_name, search_path, name)),
    )
}

/// A table with its schema.
pub open spec fn scoped_table(found: Result<(Seq<char>, TableModel), Report>) -> Result<
    ScopedModel,
    Report,
> {
    match found {
        Err(e) => Err(e),
        Ok((schema_name, schema)) => Ok(ScopedModel { schema_name, schema }),
    }
}

/// The row that a MySQL client gets for a table that was looked after.
pub open spec fn maintenance_row(database_name: Seq<char>, op: Seq<char>, table: TableModel) -> Seq<
    Option<Seq<char>>,
> {
    seq![
        Some(database_name + "."@ + table.table_name),
        Some(op),
        Some("status"@),
        Some("OK"@),
    ]
}

/// The plan of a statement that looks after tables, for MySQL clients alone.
pub open spec fn maintenance_planned(
    contents: Contents,
    mode: GatewayMode,
    database_name: Seq<char>,
    search_path: Seq<Seq<char>>,
    op: Seq<char>,
    names: Seq<Seq<PartModel>>,
) -> Result<PlanModel, Report> {
    if mode != GatewayMode::MySql {
        Err(unsupported_report(upper(op) + " TABLE is not supported yet"@))
    } else {
        match existing_tables(contents, database_name, search_path, names) {
            Err(e) => Err(e),
            Ok(tables) => Ok(
                PlanModel::TableMaintenanceRows {
                    rows: tables.map_values(
                        |table: ScopedModel| maintenance_row(database_name, op, table.schema),
                    ),
                },
            ),
        }
    }
}

/// The plan that takes statistics: of some tables, or of all tables of a database.
pub open spec fn analyze_planned(
    contents: Contents,
    database_name: Seq<char>,
    search_path: Seq<Seq<char>>,
    names: Option<Seq<Seq<PartModel>>>,
) -> Result<PlanModel, Report> {
    match names {
        Some(names) => match existing_tables(contents, database_name, search_path, names) {
            Err(e) => Err(e),
            Ok(tables) => Ok(PlanModel::AnalyzeTables { database_name, tables }),
        },
        None => match tables_listed(contents, database_name) {
            Err(e) => Err(e),
            Ok(entries) => Ok(
                PlanModel::AnalyzeTables {
                    database_name,
                    tables: entries.map_values(
                        |entry: TableEntry|
                            ScopedModel { schema_name: entry.schema_name, schema: entry.schema },
                    ),
                },
            ),
        },
    }
}

impl<S: KvStore> GatewayServer<S> {
    /// The table of an insertion.
    pub fn resolve_insert_schema(
        &mut self,
        database_name: &str,
        default_schema_name: &str,
        table_name: &str,
        existing: Option<TableSchema>,
        columns: &Vec<String>,
        width: usize,
    ) -> (result: Result<TableSchema, UserError>)
        ensures
            final(self).reliable() == old(self).reliable(),
            final(self).same_sessions(old(self)),
            existing is Some || !declared_columns(views(columns@), width as nat).contains("id"@)
                || scoped_name(default_schema_name@, table_name@) is Err
                ==> final(self).contents() == old(self).contents(),
            not_internal(result) || old(self).reliable() || existing is Some
                || !declared_columns(views(columns@), width as nat).contains("id"@)
                || scoped_name(default_schema_name@, table_name@) is Err ==> {
                let found = insert_table(
                    bootstrapped(old(self).contents()),
                    database_name@,
                    default_schema_name@,
                    table_name@,
                    option_view(existing),
                    views(columns@),
                    width as nat,
                );
                seen(result) == found.0 && bootstrapped(final(self).contents()) == bootstrapped(
                    found.1,
                )
            },
    {
        proof {
            law_bootstrap_is_stable(self.contents());
        }
        match existing {
            Some(schema) => {
                return Ok(schema);
            },
            None => {},
        }
        let declared = declare_columns(columns, width);
        if !contains_name(&declared, "id") {
            return Err(unsupported("INSERT into a schema-less table requires an 'id' column"));
        }
        let (schema_name, name) = match resolve_scoped_name(default_schema_name, table_name) {
            Err(e) => {
                return Err(e);
            },
            Ok(place) => place,
        };
        match self.require_schema(database_name, schema_name.as_str()) {
            Err(e) => {
                return Err(e);
            },
            Ok(_) => {},
        }
        let table_id: u32 = match self.catalog.allocate_table_id() {
            Err(e) => {
                return Err(e);
            },
            Ok(table_id) => table_id,
        };
        Ok(infer_table(table_id, name.as_str(), &declared))
    }

    /// The table of an insertion, with its schema and the columns that it names; `width` is the
    /// number of values of its first row.
    pub fn begin_insert(
        &mut self,
        database_name: &str,
        search_path: &Vec<String>,
        table: &Option<String>,
        columns: &Vec<ObjectName>,
        width: usize,
        ignore: bool,
        replace_into: bool,
    ) -> (result: Result<InsertTarget, UserError>)
        ensures
            final(self).reliable() == old(self).reliable(),
            final(self).same_sessions(old(self)),
            option_view(*table) is None || insert_columns(views(columns@)) is Err
                || ignore && replace_into || is_misreferred(option_view(*table)->0)
                ==> final(self).contents() == old(self).contents(),
            not_internal(result) || old(self).reliable() || option_view(*table) is None
                || insert_columns(views(columns@)) is Err || ignore && replace_into
                || is_misreferred(option_view(*table)->0) ==> {
                let found = insert_begun(
                    bootstrapped(old(self).contents()),
                    database_name@,
                    views(search_path@),
                    option_view(*table),
                    views(columns@),
                    width as nat,
                    ignore,
                    replace_into,
                );
                seen(result) == found.0 && bootstrapped(final(self).contents()) == bootstrapped(
                    found.1,
                )
            },
    {
        proof {
            law_bootstrap_is_stable(self.contents());
        }
        let table_name = match table {
            None => {
                return Err(unsupported("INSERT fast-path requires a table name"));
            },
            Some(name) => name,
        };
        let names = match insert_columns_to_idents(columns) {
            Err(e) => {
                return Err(e);
            },
            Ok(names) => names,
        };
        if ignore && replace_into {
            return Err(unsupported("INSERT IGNORE cannot be combined with REPLACE"));
        }
        let (schema_name, existing) = match self.resolve_table_schema(
            database_name,
            search_path,
            table_name.as_str(),
        ) {
            Err(e) => {
                return Err(e);
            },
            Ok(found) => found,
        };
        match self.resolve_insert_schema(
            database_name,
            schema_name.as_str(),
            table_name.as_str(),
            existing,
            &names,
            width,
        ) {
            Err(e) => Err(e),
            Ok(schema) => Ok(InsertTarget { schema_name, schema, columns: names }),
        }
    }

    /// The plan of an insertion, once its rows were made for its table.
    pub fn plan_insert(
        &mut self,
        database_name: &str,
        target: InsertTarget,
        by_assignments: bool,
        by_source: bool,
        rows: Result<Vec<RowMap>, UserError>,
        on: &Option<OnInsert>,
        ignore: bool,
        replace_into: bool,
        returning: Result<Option<Vec<ReturningProjection>>, UserError>,
    ) -> (result: Result<QueryPlan, UserError>)
        ensures
            final(self).reliable() == old(self).reliable(),
            final(self).same_sessions(old(self)),
            insert_rows(by_assignments, by_source, target@.columns.len() > 0, seen_all(rows)) is Err
                || !reads_keys(target@.schema, option_view(*on), ignore, replace_into)
                ==> final(self).contents() == old(self).contents(),
            not_internal(result) || old(self).reliable()
                || insert_rows(by_assignments, by_source, target@.columns.len() > 0, seen_all(rows)) is Err
                || !reads_keys(target@.schema, option_view(*on), ignore, replace_into)
                ==> only_opened(
                old(self).contents(),
                final(self).contents(),
            ) && seen(result) == insert_planned(
                bootstrapped(old(self).contents()),
                database_name@,
                target@,
                by_assignments,
                by_source,
                seen_all(rows),
                option_view(*on),
                ignore,
                replace_into,
                seen_returning(returning),
            ),
    {
        if by_assignments && (by_source || target.columns.len() > 0) {
            return Err(
                unsupported("INSERT ... SET cannot be combined with column list or VALUES"),
            );
        }
        if !by_assignments && !by_source {
            return Err(unsupported("INSERT fast-path requires VALUES, SELECT, or SET"));
        }
        let found = match rows {
            Err(e) => {
                return Err(e);
            },
            Ok(found) => found,
        };
        let on_conflict = match self.resolve_insert_on_conflict(
            &target.schema,
            on,
            ignore,
            replace_into,
        ) {
            Err(e) => {
                return Err(e);
            },
            Ok(action) => action,
        };
        match returning {
            Err(e) => Err(e),
            Ok(items) => Ok(
                QueryPlan::InsertRows {
                    database_name: database_name.to_string(),
                    schema_name: target.schema_name,
                    schema: target.schema,
                    rows: found,
                    on_conflict,
                    returning: items,
                },
            ),
        }
    }

    /// Tables that have to be there, by their names.
    fn find_existing_tables(
        &mut self,
        database_name: &str,
        search_path: &Vec<String>,
        names: &Vec<ObjectName>,
    ) -> (result: Result<Vec<ScopedTable>, UserError>)
        ensures
            final(self).reliable() == old(self).reliable(),
            final(self).same_sessions(old(self)),
            names@.len() == 0 || is_misnamed(names@[0]@)
                ==> final(self).contents() == old(self).contents(),
            not_internal(result) || old(self).reliable() || names@.len() == 0
                || is_misnamed(names@[0]@) ==> only_opened(
                old(self).contents(),
                final(self).contents(),
            ) && seen_all(result) == existing_tables(
                bootstrapped(old(self).contents()),
                database_name@,
                views(search_path@),
                views(names@),
            ),
    {
        let ghost opened = bootstrapped(self.contents());
        proof {
            law_bootstrap_is_stable(self.contents());
        }
        let ghost all = views(names@);
        let ghost resolve = |name: Seq<PartModel>|
            scoped_table(existing_table(opened, database_name@, views(search_path@), name));
        let mut tables: Vec<ScopedTable> = Vec::new();
        let mut i: usize = 0;
        assert(all.take(0) =~= Seq::<Seq<PartModel>>::empty());
        assert(views(tables@) =~= Seq::<ScopedModel>::empty());
        while i < names.len()
            invariant
                i <= names@.len(),
                all == views(names@),
                opened == bootstrapped(old(self).contents()),
                opened == bootstrapped(opened),
                self.reliable() == old(self).reliable(),
                self.same_sessions(old(self)),
                i == 0 ==> self.contents() == old(self).contents(),
                i > 0 ==> !is_misnamed(names@[0]@),
                only_opened(old(self).contents(), self.contents()),
                bootstrapped(self.contents()) == opened,
                resolve == (|name: Seq<PartModel>|
                    scoped_table(
                        existing_table(opened, database_name@, views(search_path@), name),
                    )),
                each_resolved(all.take(i as int), resolve) == Ok::<Seq<ScopedModel>, Report>(
                    views(tables@),
                ),
            decreases names@.len() - i,
        {
            assert(all.take(i + 1).drop_last() =~= all.take(i as int));
            assert(all.take(i + 1).last() == names@[i as int]@);
            proof {
                if each_resolved(all.take(i + 1), resolve) is Err {
                    lemma_each_fails(all, resolve, i + 1);
                }
            }
            match self.resolve_existing_table_schema(database_name, search_path, &names[i]) {
                Err(e) => {
                    return Err(e);
                },
                Ok((schema_name, schema)) => {
                    let ghost before = views(tables@);
                    let ghost added = ScopedModel { schema_name: schema_name@, schema: schema@ };
                    tables.push(ScopedTable { schema_name, schema });
                    assert(views(tables@) =~= before.push(added));
                },
            }
            i += 1;
        }
        assert(all.take(i as int) =~= all);
        Ok(tables)
    }

    /// Plans that tables lose their rows.
    pub fn plan_truncate_table(
        &mut self,
        database_name: &str,
        search_path: &Vec<String>,
        names: &Vec<ObjectName>,
    ) -> (result: Result<QueryPlan, UserError>)
        ensures
            final(self).reliable() == old(self).reliable(),
            final(self).same_sessions(old(self)),
            names@.len() == 0 || is_misnamed(names@[0]@)
                ==> final(self).contents() == old(self).contents(),
            not_internal(result) || old(self).reliable() || names@.len() == 0
                || is_misnamed(names@[0]@) ==> only_opened(
                old(self).contents(),
                final(self).contents(),
            ) && seen(result) == (match existing_tables(
                bootstrapped(old(self).contents()),
                database_name@,
                views(search_path@),
                views(names@),
            ) {
                Err(e) => Err(e),
                Ok(tables) => Ok(
                    PlanModel::TruncateTables { database_name: database_name@, tables },
                ),
            }),
    {
        match self.find_existing_tables(database_name, search_path, names) {
            Err(e) => Err(e),
            Ok(tables) => Ok(
                QueryPlan::TruncateTables { database_name: database_name.to_string(), tables },
            ),
        }
    }

    /// Plans that tables are looked after.
    pub fn plan_mysql_table_maintenance(
        &mut self,
        database_name: &str,
        search_path: &Vec<String>,
        op: &str,
        names: &Vec<ObjectName>,
    ) -> (result: Result<QueryPlan, UserError>)
        ensures
            final(self).reliable() == old(self).reliable(),
            final(self).same_sessions(old(self)),
            old(self).mode != GatewayMode::MySql || names@.len() == 0 || is_misnamed(names@[0]@)
                ==> final(self).contents() == old(self).contents(),
            not_internal(result) || old(self).reliable() || old(self).mode != GatewayMode::MySql
                || names@.len() == 0 || is_misnamed(names@[0]@) ==> only_opened(
                old(self).contents(),
                final(self).contents(),
            ) && seen(result) == maintenance_planned(
                bootstrapped(old(self).contents()),
                old(self).mode,
                database_name@,
                views(search_path@),
                op@,
                views(names@),
            ),
    {
        if self.mode != GatewayMode::MySql {
            let message = two_texts(upper_text(op).as_str(), " TABLE is not supported yet");
            return Err(unsupported(message.as_str()));
        }
        let tables = match self.find_existing_tables(database_name, search_path, names) {
            Err(e) => {
                return Err(e);
            },
            Ok(tables) => tables,
        };
        let ghost all = views(tables@);
        let ghost expected = all.map_values(
            |table: ScopedModel| maintenance_row(database_name@, op@, table.schema),
        );
        let mut rows: Vec<TextRow> = Vec::new();
        let mut i: usize = 0;
        while i < tables.len()
            invariant
                i <= tables@.len(),
                all == views(tables@),
                expected == all.map_values(
                    |table: ScopedModel| maintenance_row(database_name@, op@, table.schema),
                ),
                rows@.len() == i,
                forall|k: int| 0 <= k < i ==> (#[trigger] rows@[k])@ == expected[k],
            decreases tables@.len() - i,
        {
            assert(all[i as int] == tables@[i as int]@);
            let mut cells: Vec<Option<String>> = Vec::new();
            cells.push(
                Some(three_texts(database_name, ".", tables[i].schema.table_name.as_str())),
            );
            cells.push(Some(op.to_string()));
            cells.push(Some("status".to_string()));
            cells.push(Some("OK".to_string()));
            let row = TextRow { cells };
            assert(row@ =~= expected[i as int]);
            rows.push(row);
            i += 1;
        }
        assert(views(rows@) =~= expected);
        Ok(QueryPlan::TableMaintenanceRows { rows })
    }

    /// Plans that statistics are taken.
    pub fn plan_postgres_analyze(
        &mut self,
        database_name: &str,
        search_path: &Vec<String>,
        names: &Option<Vec<ObjectName>>,
    ) -> (result: Result<QueryPlan, UserError>)
        ensures
            final(self).reliable() == old(self).reliable(),
            final(self).same_sessions(old(self)),
            (names matches Some(list) && (list@.len() == 0 || is_misnamed(list@[0]@)))
                ==> final(self).contents() == old(self).contents(),
            not_internal(result) || old(self).reliable() || (names matches Some(list) && (
            list@.len() == 0 || is_misnamed(list@[0]@))) ==> only_opened(
                old(self).contents(),
                final(self).contents(),
            ) && seen(result) == analyze_planned(
                bootstrapped(old(self).contents()),
                database_name@,
                views(search_path@),
                crate::server::plan::option_views(*names),
            ),
    {
        match names {
            Some(names) => match self.find_existing_tables(database_name, search_path, names) {
                Err(e) => Err(e),
                Ok(tables) => Ok(
                    QueryPlan::AnalyzeTables { database_name: database_name.to_string(), tables },
                ),
            },
            None => {
                let entries = match self.catalog.list_tables(database_name) {
                    Err(e) => {
                        return Err(e);
                    },
                    Ok(entries) => entries,
                };
                let ghost all = views(entries@);
                let ghost expected = all.map_values(
                    |entry: TableEntry|
                        ScopedModel { schema_name: entry.schema_name, schema: entry.schema },
                );
                let mut tables: Vec<ScopedTable> = Vec::new();
                let mut i: usize = 0;
                while i < entries.len()
                    invariant
                        i <= entries@.len(),
                        all == views(entries@),
                        expected == all.map_values(
                            |entry: TableEntry|
                                ScopedModel {
                                    schema_name: entry.schema_name,
                                    schema: entry.schema,
                                },
                        ),
                        tables@.len() == i,
                        forall|k: int| 0 <= k < i ==> (#[trigger] tables@[k])@ == expected[k],
                    decreases entries@.len() - i,
                {
                    assert(all[i as int] == entries@[i as int]@);
                    tables.push(
                        ScopedTable {
                            schema_name: entries[i].schema_name.clone(),
                            schema: entries[i].schema.duplicate(),
                        },
                    );
                    i += 1;
                }
                assert(views(tables@) =~= expected);
                Ok(QueryPlan::AnalyzeTables { database_name: database_name.to_string(), tables })
            },
        }
    }
}

} // verus!
