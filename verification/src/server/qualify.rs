//! Names of tables in queries: which names a query reads from, and what they are qualified to.
use vstd::prelude::*;

use crate::catalog::model::{bootstrapped, law_bootstrap_is_stable};
use crate::error::{not_internal, Report, UserError};
use crate::mem_store::{Contents, KvStore};
use crate::names::{object_name, object_name_to_string, ObjectName, PartModel};
use crate::schema::{option_view, views, Duplicate};
use crate::server::ddl_columns::two_texts;
use crate::server::ddl_plan::{each_resolved, lemma_each_fails};
use crate::server::gateway::{has_dot, only_opened, qualified_table, GatewayServer};
use crate::text::{lower, mark_at, same_but_for_case};

verus! {

/// Something that a query reads from.
#[derive(Debug)]
pub enum TableTree {
    /// A table by its name.
    Named { name: ObjectName },
    /// The result of a query.
    Derived { query: Box<QueryTree> },
    /// Joined tables in parentheses.
    Nested { tables: Box<JoinTree> },
    /// A table that is turned, in one direction or the other.
    Pivot { table: Box<TableTree> },
    /// Anything else.
    Other,
}

/// Tables that are joined.
#[derive(Debug)]
pub struct JoinTree {
    pub relation: TableTree,
    pub joins: Vec<TableTree>,
}

/// A query, as far as tables go.
#[derive(Debug)]
pub struct QueryTree {
    pub ctes: Vec<QueryTree>,
    pub body: SetTree,
}

/// The body of a query, as far as tables go.
#[derive(Debug)]
pub enum SetTree {
    Select { from: Vec<JoinTree> },
    Query { query: Box<QueryTree> },
    Operation { left: Box<SetTree>, right: Box<SetTree> },
    Other,
}

/// A statement, as far as tables go.
#[derive(Debug)]
#[allow(inconsistent_fields)]
pub enum StatementTree {
    Query { query: QueryTree },
    Insert { table: Option<ObjectName>, source: Option<QueryTree> },
    Update { table: JoinTree },
    Delete { from: Vec<JoinTree> },
    Other,
}

/// The names in something that a query reads from.
pub open spec fn names_in_table(table: TableTree) -> Seq<Seq<PartModel>>
    decreases table,
{
    match table {
        TableTree::Named { name } => seq![name@],
        TableTree::Derived { query } => names_in_query(*query),
        TableTree::Nested { tables } => names_in_joins(*tables),
        TableTree::Pivot { table: inner } => names_in_table(*inner),
        TableTree::Other => seq![],
    }
}

/// The names in things that a query reads from.
pub open spec fn names_in_tables(tables: Seq<TableTree>) -> Seq<Seq<PartModel>>
    decreases tables,
{
    if tables.len() == 0 {
        seq![]
    } else {
        names_in_tables(tables.drop_last()) + names_in_table(tables.last())
    }
}

/// The names in joined tables.
pub open spec fn names_in_joins(tables: JoinTree) -> Seq<Seq<PartModel>>
    decreases tables,
{
    names_in_table(tables.relation) + names_in_tables(tables.joins@)
}

/// The names in a list of joined tables.
pub open spec fn names_in_from(from: Seq<JoinTree>) -> Seq<Seq<PartModel>>
    decreases from,
{
    if from.len() == 0 {
        seq![]
    } else {
        names_in_from(from.drop_last()) + names_in_joins(from.last())
    }
}

/// The names in the body of a query.
pub open spec fn names_in_set(body: SetTree) -> Seq<Seq<PartModel>>
    decreases body,
{
    match body {
        SetTree::Select { from } => names_in_from(from@),
        SetTree::Query { query } => names_in_query(*query),
        SetTree::Operation { left, right } => names_in_set(*left) + names_in_set(*right),
        SetTree::Other => seq![],
    }
}

/// The names in queries.
pub open spec fn names_in_queries(queries: Seq<QueryTree>) -> Seq<Seq<PartModel>>
    decreases queries,
{
    if queries.len() == 0 {
        seq![]
    } else {
        names_in_queries(queries.drop_last()) + names_in_query(queries.last())
    }
}

/// The names in a query: those of the queries that it names first, then those of its body.
pub open spec fn names_in_query(query: QueryTree) -> Seq<Seq<PartModel>>
    decreases query,
{
    names_in_queries(query.ctes@) + names_in_set(query.body)
}

/// The names in a statement.
pub open spec fn names_in_statement(statement: StatementTree) -> Seq<Seq<PartModel>> {
    match statement {
        StatementTree::Query { query } => names_in_query(query),
        StatementTree::Insert { table, source } => (match table {
            Some(name) => seq![name@],
            None => seq![],
        }) + (match source {
            Some(query) => names_in_query(query),
            None => seq![],
        }),
        StatementTree::Update { table } => names_in_joins(table),
        StatementTree::Delete { from } => names_in_from(from@),
        StatementTree::Other => seq![],
    }
}

fn collect_table(table: &TableTree, names: &mut Vec<ObjectName>)
    ensures
        views(final(names)@) == views(old(names)@) + names_in_table(*table),
    decreases table,
{
    match table {
        TableTree::Named { name } => {
            let ghost before = views(names@);
            names.push(name.duplicate());
            assert(views(names@) =~= before + seq![name@]);
        },
        TableTree::Derived { query } => {
            collect_query(query, names);
        },
        TableTree::Nested { tables } => {
            collect_joins(tables, names);
        },
        TableTree::Pivot { table: inner } => {
            collect_table(inner, names);
        },
        TableTree::Other => {
            assert(views(names@) =~= views(names@) + Seq::<Seq<PartModel>>::empty());
        },
    }
}

fn collect_joins(tables: &JoinTree, names: &mut Vec<ObjectName>)
    ensures
        views(final(names)@) == views(old(names)@) + names_in_joins(*tables),
    decreases tables,
{
    let ghost start = views(names@);
    collect_table(&tables.relation, names);
    let ghost first = names_in_table(tables.relation);
    let ghost all = tables.joins@;
    let mut i: usize = 0;
    assert(all.take(0) =~= Seq::<TableTree>::empty());
    assert(views(names@) =~= start + first + names_in_tables(all.take(0)));
    while i < tables.joins.len()
        invariant
            i <= tables.joins@.len(),
            all == tables.joins@,
            views(names@) == start + first + names_in_tables(all.take(i as int)),
        decreases tables.joins@.len() - i,
    {
        assert(all.take(i + 1).drop_last() =~= all.take(i as int));
        assert(all.take(i + 1).last() == all[i as int]);
        let ghost before = names_in_tables(all.take(i as int));
        collect_table(&tables.joins[i], names);
        assert(start + first + before + names_in_table(all[i as int]) =~= start + first + (before
            + names_in_table(all[i as int])));
        i += 1;
    }
    assert(all.take(i as int) =~= all);
    assert(start + first + names_in_tables(all) =~= start + (first + names_in_tables(all)));
}

fn collect_from(from: &Vec<JoinTree>, names: &mut Vec<ObjectName>)
    ensures
        views(final(names)@) == views(old(names)@) + names_in_from(from@),
    decreases from,
{
    let ghost start = views(names@);
    let ghost all = from@;
    let mut i: usize = 0;
    assert(all.take(0) =~= Seq::<JoinTree>::empty());
    assert(views(names@) =~= start + names_in_from(all.take(0)));
    while i < from.len()
        invariant
            i <= from@.len(),
            all == from@,
            views(names@) == start + names_in_from(all.take(i as int)),
        decreases from@.len() - i,
    {
        assert(all.take(i + 1).drop_last() =~= all.take(i as int));
        assert(all.take(i + 1).last() == all[i as int]);
        let ghost before = names_in_from(all.take(i as int));
        collect_joins(&from[i], names);
        assert(start + before + names_in_joins(all[i as int]) =~= start + (before
            + names_in_joins(all[i as int])));
        i += 1;
    }
    assert(all.take(i as int) =~= all);
}

fn collect_set(body: &SetTree, names: &mut Vec<ObjectName>)
    ensures
        views(final(names)@) == views(old(names)@) + names_in_set(*body),
    decreases body,
{
    match body {
        SetTree::Select { from } => {
            collect_from(from, names);
        },
        SetTree::Query { query } => {
            collect_query(query, names);
        },
        SetTree::Operation { left, right } => {
            let ghost start = views(names@);
            collect_set(left, names);
            collect_set(right, names);
            assert(views(names@) =~= start + (names_in_set(**left) + names_in_set(**right)));
        },
        SetTree::Other => {
            assert(views(names@) =~= views(names@) + Seq::<Seq<PartModel>>::empty());
        },
    }
}

fn collect_query(query: &QueryTree, names: &mut Vec<ObjectName>)
    ensures
        views(final(names)@) == views(old(names)@) + names_in_query(*query),
    decreases query,
{
    let ghost start = views(names@);
    let ghost all = query.ctes@;
    let mut i: usize = 0;
    assert(all.take(0) =~= Seq::<QueryTree>::empty());
    assert(views(names@) =~= start + names_in_queries(all.take(0)));
    while i < query.ctes.len()
        invariant
            i <= query.ctes@.len(),
            all == query.ctes@,
            views(names@) == start + names_in_queries(all.take(i as int)),
        decreases query.ctes@.len() - i,
    {
        assert(all.take(i + 1).drop_last() =~= all.take(i as int));
        assert(all.take(i + 1).last() == all[i as int]);
        let ghost before = names_in_queries(all.take(i as int));
        collect_query(&query.ctes[i], names);
        assert(start + before + names_in_query(all[i as int]) =~= start + (before
            + names_in_query(all[i as int])));
        i += 1;
    }
    assert(all.take(i as int) =~= all);
    collect_set(&query.body, names);
    assert(start + names_in_queries(all) + names_in_set(query.body) =~= start + (names_in_queries(
        all,
    ) + names_in_set(query.body)));
}

/// The names in a statement, in the order in which they are resolved.
pub fn statement_table_names(statement: &StatementTree) -> (names: Vec<ObjectName>)
    ensures
        views(names@) == names_in_statement(*statement),
{
    let mut names: Vec<ObjectName> = Vec::new();
    let ghost none = Seq::<Seq<PartModel>>::empty();
    assert(views(names@) =~= none);
    match statement {
        StatementTree::Query { query } => {
            collect_query(query, &mut names);
            assert(views(names@) =~= names_in_query(*query));
        },
        StatementTree::Insert { table, source } => {
            if let Some(name) = table {
                names.push(name.duplicate());
                assert(views(names@) =~= seq![name@]);
            }
            let ghost first = views(names@);
            if let Some(query) = source {
                collect_query(query, &mut names);
            } else {
                assert(views(names@) =~= first + none);
            }
        },
        StatementTree::Update { table } => {
            collect_joins(table, &mut names);
            assert(views(names@) =~= names_in_joins(*table));
        },
        StatementTree::Delete { from } => {
            collect_from(from, &mut names);
            assert(views(names@) =~= names_in_from(from@));
        },
        StatementTree::Other => {},
    }
    names
}

/// Whether a name is that of a relation of `pg_catalog`.
pub open spec fn is_catalog_relation(name: Seq<char>) -> bool {
    let small = lower(name);
    small == lower("pg_class"@)
        || small == lower("pg_attribute"@)
        || small == lower("pg_index"@)
        || small == lower("pg_constraint"@)
        || small == lower("pg_proc"@)
        || small == lower("pg_cast"@)
        || small == lower("pg_settings"@)
        || small == lower("pg_tables"@)
        || small == lower("pg_type"@)
        || small == lower("pg_authid"@)
        || small == lower("pg_auth_members"@)
        || small == lower("pg_roles"@)
        || small == lower("pg_user"@)
        || small == lower("pg_group"@)
        || small == lower("pg_attrdef"@)
        || small == lower("pg_depend"@)
        || small == lower("pg_description"@)
        || small == lower("pg_shdepend"@)
        || small == lower("pg_shdescription"@)
        || small == lower("pg_am"@)
        || small == lower("pg_opclass"@)
        || small == lower("pg_opfamily"@)
        || small == lower("pg_operator"@)
        || small == lower("pg_collation"@)
        || small == lower("pg_sequence"@)
        || small == lower("pg_sequences"@)
        || small == lower("pg_rewrite"@)
        || small == lower("pg_views"@)
        || small == lower("pg_trigger"@)
        || small == lower("pg_policy"@)
        || small == lower("pg_statistic"@)
        || small == lower("pg_stats"@)
        || small == lower("pg_statistic_ext"@)
        || small == lower("pg_statistic_ext_data"@)
        || small == lower("pg_stats_ext"@)
        || small == lower("pg_stats_ext_exprs"@)
        || small == lower("pg_indexes"@)
}

/// Whether a name is that of a relation of `pg_catalog`.
pub fn is_pg_catalog_relation_name(name: &str) -> (answer: bool)
    ensures
        answer == is_catalog_relation(name@),
{
    same_but_for_case(name, "pg_class")
        || same_but_for_case(name, "pg_attribute")
        || same_but_for_case(name, "pg_index")
        || same_but_for_case(name, "pg_constraint")
        || same_but_for_case(name, "pg_proc")
        || same_but_for_case(name, "pg_cast")
        || same_but_for_case(name, "pg_settings")
        || same_but_for_case(name, "pg_tables")
        || same_but_for_case(name, "pg_type")
        || same_but_for_case(name, "pg_authid")
        || same_but_for_case(name, "pg_auth_members")
        || same_but_for_case(name, "pg_roles")
        || same_but_for_case(name, "pg_user")
        || same_but_for_case(name, "pg_group")
        || same_but_for_case(name, "pg_attrdef")
        || same_but_for_case(name, "pg_depend")
        || same_but_for_case(name, "pg_description")
        || same_but_for_case(name, "pg_shdepend")
        || same_but_for_case(name, "pg_shdescription")
        || same_but_for_case(name, "pg_am")
        || same_but_for_case(name, "pg_opclass")
        || same_but_for_case(name, "pg_opfamily")
        || same_but_for_case(name, "pg_operator")
        || same_but_for_case(name, "pg_collation")
        || same_but_for_case(name, "pg_sequence")
        || same_but_for_case(name, "pg_sequences")
        || same_but_for_case(name, "pg_rewrite")
        || same_but_for_case(name, "pg_views")
        || same_but_for_case(name, "pg_trigger")
        || same_but_for_case(name, "pg_policy")
        || same_but_for_case(name, "pg_statistic")
        || same_but_for_case(name, "pg_stats")
        || same_but_for_case(name, "pg_statistic_ext")
        || same_but_for_case(name, "pg_statistic_ext_data")
        || same_but_for_case(name, "pg_stats_ext")
        || same_but_for_case(name, "pg_stats_ext_exprs")
        || same_but_for_case(name, "pg_indexes")
}

/// What a name is to be read as instead; none where it stays as it is.
pub open spec fn name_qualified(
    contents: Contents,
    database_name: Seq<char>,
    search_path: Seq<Seq<char>>,
    name: Seq<PartModel>,
) -> Result<Option<Seq<char>>, Report> {
    match object_name(name) {
        Err(e) => Err(e),
        Ok(text) => if is_catalog_relation(text) {
            Ok(Some("pg_catalog."@ + text))
        } else if mark_at(text, '.') is Some {
            Ok(None)
        } else {
            qualified_table(contents, database_name, search_path, text)
        },
    }
}

/// What names are to be read as instead.
pub open spec fn names_qualified(
    contents: Contents,
    database_name: Seq<char>,
    search_path: Seq<Seq<char>>,
    names: Seq<Seq<PartModel>>,
) -> Result<Seq<Option<Seq<char>>>, Report> {
    each_resolved(
        names,
        |name: Seq<PartModel>| name_qualified(contents, database_name, search_path, name),
    )
}

/// What is seen of texts that may be missing.
pub open spec fn seen_options(result: Result<Vec<Option<String>>, UserError>) -> Result<
    Seq<Option<Seq<char>>>,
    Report,
> {
    match result {
        Ok(found) => Ok(option_texts(found@)),
        Err(e) => Err(e@),
    }
}

/// The texts of options.
pub open spec fn option_texts(texts: Seq<Option<String>>) -> Seq<Option<Seq<char>>> {
    texts.map_values(|text: Option<String>| option_view(text))
}

/// A name that has a dot, and is not that of a relation of `pg_catalog`, stays as it is.
pub proof fn law_qualified_names_stay(
    contents: Contents,
    database_name: Seq<char>,
    search_path: Seq<Seq<char>>,
    name: Seq<PartModel>,
)
    requires
        object_name(name) matches Ok(text) && mark_at(text, '.') is Some && !is_catalog_relation(
            text,
        ),
    ensures
        name_qualified(contents, database_name, search_path, name) == Ok::<
            Option<Seq<char>>,
            Report,
        >(None),
{
}

/// Whether a name is settled without a search for its table.
pub open spec fn needs_no_search(name: Seq<PartModel>) -> bool {
    match object_name(name) {
        Err(_) => true,
        Ok(text) => is_catalog_relation(text) || mark_at(text, '.') is Some,
    }
}

impl<S: KvStore> GatewayServer<S> {
    /// What a name is to be read as instead; none where it stays as it is.
    pub fn qualify_object_name_for_search_path(
        &mut self,
        name: &ObjectName,
        database_name: &str,
        search_path: &Vec<String>,
    ) -> (result: Result<Option<String>, UserError>)
        ensures
            final(self).reliable() == old(self).reliable(),
            final(self).same_sessions(old(self)),
            needs_no_search(name@) ==> final(self).contents() == old(self).contents(),
            not_internal(result) || old(self).reliable() || needs_no_search(name@) ==> only_opened(
                old(self).contents(),
                final(self).contents(),
            ) && (match result {
                Ok(found) => Ok(option_view(found)),
                Err(e) => Err(e@),
            }) == name_qualified(
                bootstrapped(old(self).contents()),
                database_name@,
                views(search_path@),
                name@,
            ),
    {
        let text = match object_name_to_string(name) {
            Err(e) => {
                return Err(e);
            },
            Ok(text) => text,
        };
        if is_pg_catalog_relation_name(text.as_str()) {
            return Ok(Some(two_texts("pg_catalog.", text.as_str())));
        }
        if has_dot(text.as_str()) {
            return Ok(None);
        }
        self.resolve_table_name_for_search_path(database_name, search_path, text.as_str())
    }

    /// What the names in a statement are to be read as instead, in the order of
    /// [`statement_table_names`].
    pub fn qualify_statement_for_search_path(
        &mut self,
        statement: &StatementTree,
        database_name: &str,
        search_path: &Vec<String>,
    ) -> (result: Result<Vec<Option<String>>, UserError>)
        ensures
            final(self).reliable() == old(self).reliable(),
            final(self).same_sessions(old(self)),
            not_internal(result) || old(self).reliable() ==> only_opened(
                old(self).contents(),
                final(self).contents(),
            ) && seen_options(result) == names_qualified(
                bootstrapped(old(self).contents()),
                database_name@,
                views(search_path@),
                names_in_statement(*statement),
            ),
    {
        let ghost opened = bootstrapped(self.contents());
        proof {
            law_bootstrap_is_stable(self.contents());
        }
        let names = statement_table_names(statement);
        let ghost all = views(names@);
        let ghost resolve = |name: Seq<PartModel>|
            name_qualified(opened, database_name@, views(search_path@), name);
        let mut found: Vec<Option<String>> = Vec::new();
        let mut i: usize = 0;
        assert(option_texts(found@) =~= Seq::<Option<Seq<char>>>::empty());
        while i < names.len()
            invariant
                i <= names@.len(),
                all == views(names@),
                all == names_in_statement(*statement),
                opened == bootstrapped(old(self).contents()),
                opened == bootstrapped(opened),
                resolve == (|name: Seq<PartModel>|
                    name_qualified(opened, database_name@, views(search_path@), name)),
                self.reliable() == old(self).reliable(),
                self.same_sessions(old(self)),
                only_opened(old(self).contents(), self.contents()),
                bootstrapped(self.contents()) == opened,
                each_resolved(all.take(i as int), resolve) == Ok::<Seq<Option<Seq<char>>>, Report>(
                    option_texts(found@),
                ),
            decreases names@.len() - i,
        {
            proof {
                assert(all.take(i + 1).drop_last() =~= all.take(i as int));
                assert(all.take(i + 1).last() == names@[i as int]@);
            }
            match self.qualify_object_name_for_search_path(&names[i], database_name, search_path) {
                Err(e) => {
                    proof {
                        if not_internal(Err::<(), UserError>(e)) || old(self).reliable() {
                            lemma_each_fails(all, resolve, i + 1);
                        }
                    }
                    return Err(e);
                },
                Ok(one) => {
                    let ghost before = option_texts(found@);
                    let ghost added = option_view(one);
                    found.push(one);
                    assert(option_texts(found@) =~= before.push(added));
                },
            }
            i += 1;
        }
        assert(all.take(i as int) =~= all);
        Ok(found)
    }
}

} // verus!
