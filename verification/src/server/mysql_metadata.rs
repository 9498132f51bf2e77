//! What MySQL clients are told of databases, tables and columns.
use vstd::prelude::*;

use crate::catalog::model::{
    bootstrapped, databases_listed, indexes_listed, law_bootstrap_is_stable, tables_listed,
};
use crate::catalog::types::{
    DatabaseModel, IndexCatalog, IndexModel, TableEntry, DEFAULT_SCHEMA_NAME,
};
use crate::error::{not_internal, Report, UserError};
use crate::mem_store::{Contents, KvStore};
use crate::names::{join_names, joined};
use crate::schema::{
    duplicate_option, option_view, seen_all, views, ColumnModel, ColumnSchema, TableModel,
    TableSchema, UniqueConstraintSchema, UniqueModel,
};
use crate::server::ddl_columns::two_texts;
use crate::server::gateway::{is_misreferred, only_opened, table_required, GatewayServer};
use crate::server::literals::doubled;
use crate::server::sequences::{nextval_name, nextval_sequence_name};
use crate::sorting::{order_of, sort_items, sorted};
use crate::text::{chars_of, lower, same_but_for_case, same_text, three_texts};
use crate::types::INTERNAL_ROWID_COLUMN;

verus! {

/// What MySQL clients are told of a column.
#[derive(Debug)]
pub struct MySqlColumnMetadata {
    pub field: String,
    pub column_type: String,
    pub nullable: String,
    pub key: String,
    pub default_value: Option<String>,
    pub extra: String,
}

/// What a [`MySqlColumnMetadata`] says.
pub struct MetadataModel {
    pub field: Seq<char>,
    pub column_type: Seq<char>,
    pub nullable: Seq<char>,
    pub key: Seq<char>,
    pub default_value: Option<Seq<char>>,
    pub extra: Seq<char>,
}

impl View for MySqlColumnMetadata {
    type V = MetadataModel;

    open spec fn view(&self) -> MetadataModel {
        MetadataModel {
            field: self.field@,
            column_type: self.column_type@,
            nullable: self.nullable@,
            key: self.key@,
            default_value: option_view(self.default_value),
            extra: self.extra@,
        }
    }
}

/// A name in which backquotes stand twice.
pub fn mysql_escape_identifier(name: &str) -> (text: String)
    ensures
        text@ == doubled(name@, '`'),
{
    let chars = chars_of(name);
    let mut text = String::new();
    let mut i: usize = 0;
    assert(text@ =~= doubled(name@.take(0), '`'));
    while i < chars.len()
        invariant
            i <= chars@.len(),
            chars@ == name@,
            text@ == doubled(name@.take(i as int), '`'),
        decreases chars@.len() - i,
    {
        assert(name@.take(i + 1).drop_last() =~= name@.take(i as int));
        if chars[i] == '`' {
            text.push('`');
        }
        text.push(chars[i]);
        i += 1;
    }
    assert(name@.take(i as int) =~= name@);
    text
}

/// A name between backquotes.
pub open spec fn backquoted(name: Seq<char>) -> Seq<char> {
    "`"@ + doubled(name, '`') + "`"@
}

fn backquote(name: &str) -> (text: String)
    ensures
        text@ == backquoted(name@),
{
    three_texts("`", mysql_escape_identifier(name).as_str(), "`")
}

/// Names between backquotes, with commas between them.
pub open spec fn backquoted_list(names: Seq<Seq<char>>) -> Seq<char> {
    joined(names.map_values(|name: Seq<char>| backquoted(name)), ", "@)
}

fn backquote_all(names: &Vec<String>) -> (text: String)
    ensures
        text@ == backquoted_list(views(names@)),
{
    let ghost quoted = views(names@).map_values(|name: Seq<char>| backquoted(name));
    let mut texts: Vec<String> = Vec::new();
    let mut i: usize = 0;
    while i < names.len()
        invariant
            i <= names@.len(),
            quoted == views(names@).map_values(|name: Seq<char>| backquoted(name)),
            texts@.len() == i,
            forall|k: int| 0 <= k < i ==> (#[trigger] texts@[k])@ == quoted[k],
        decreases names@.len() - i,
    {
        texts.push(backquote(names[i].as_str()));
        i += 1;
    }
    assert(views(texts@) =~= quoted);
    join_names(&texts, ", ")
}

/// Whether a unique constraint, other than the primary key, is on just one column.
pub open spec fn is_unique_on(constraint: UniqueModel, name: Seq<char>) -> bool {
    !constraint.primary_key && constraint.columns.len() == 1 && lower(constraint.columns[0])
        == lower(name)
}

/// Whether a column is by itself unique through a constraint.
pub open spec fn has_unique_constraint(constraints: Seq<UniqueModel>, name: Seq<char>) -> bool {
    exists|i: int| 0 <= i < constraints.len() && is_unique_on(#[trigger] constraints[i], name)
}

fn is_unique_by_constraint(constraints: &Vec<UniqueConstraintSchema>, name: &str) -> (answer: bool)
    ensures
        answer == has_unique_constraint(views(constraints@), name@),
{
    let ghost all = views(constraints@);
    let mut i: usize = 0;
    while i < constraints.len()
        invariant
            i <= constraints@.len(),
            all == views(constraints@),
            forall|k: int| 0 <= k < i ==> !is_unique_on(#[trigger] all[k], name@),
        decreases constraints@.len() - i,
    {
        let constraint = &constraints[i];
        assert(all[i as int] == constraint@);
        if !constraint.primary_key && constraint.columns.len() == 1 {
            assert(constraint@.columns[0] == constraint.columns@[0]@);
            if same_but_for_case(constraint.columns[0].as_str(), name) {
                return true;
            }
        }
        i += 1;
    }
    false
}

/// Whether a column is by itself unique through an index.
pub open spec fn has_unique_index(indexes: Seq<IndexModel>, name: Seq<char>) -> bool {
    exists|i: int|
        0 <= i < indexes.len() && (#[trigger] indexes[i]).unique && indexes[i].column_names.len()
            == 1 && lower(indexes[i].column_names[0]) == lower(name)
}

fn is_unique_by_index(indexes: &Vec<IndexCatalog>, name: &str) -> (answer: bool)
    ensures
        answer == has_unique_index(views(indexes@), name@),
{
    let ghost all = views(indexes@);
    let mut i: usize = 0;
    while i < indexes.len()
        invariant
            i <= indexes@.len(),
            all == views(indexes@),
            forall|k: int|
                0 <= k < i ==> !((#[trigger] all[k]).unique && all[k].column_names.len() == 1
                    && lower(all[k].column_names[0]) == lower(name@)),
        decreases indexes@.len() - i,
    {
        let index = &indexes[i];
        assert(all[i as int] == index@);
        if index.unique && index.column_names.len() == 1 {
            assert(index@.column_names[0] == index.column_names@[0]@);
            if same_but_for_case(index.column_names[0].as_str(), name) {
                return true;
            }
        }
        i += 1;
    }
    false
}

/// Whether names hold a name, in capitals or not.
pub open spec fn listed_in(names: Seq<Seq<char>>, name: Seq<char>) -> bool {
    exists|i: int| 0 <= i < names.len() && lower(#[trigger] names[i]) == lower(name)
}

fn is_listed_in(names: &Vec<String>, name: &str) -> (answer: bool)
    ensures
        answer == listed_in(views(names@), name@),
{
    let ghost all = views(names@);
    let mut i: usize = 0;
    while i < names.len()
        invariant
            i <= names@.len(),
            all == views(names@),
            forall|k: int| 0 <= k < i ==> lower(#[trigger] all[k]) != lower(name@),
        decreases names@.len() - i,
    {
        assert(all[i as int] == names@[i as int]@);
        if same_but_for_case(names[i].as_str(), name) {
            return true;
        }
        i += 1;
    }
    false
}

/// Whether a column is in an index that is not unique.
pub open spec fn has_plain_index(indexes: Seq<IndexModel>, name: Seq<char>) -> bool {
    exists|i: int|
        0 <= i < indexes.len() && !(#[trigger] indexes[i]).unique && listed_in(
            indexes[i].column_names,
            name,
        )
}

fn is_in_plain_index(indexes: &Vec<IndexCatalog>, name: &str) -> (answer: bool)
    ensures
        answer == has_plain_index(views(indexes@), name@),
{
    let ghost all = views(indexes@);
    let mut i: usize = 0;
    while i < indexes.len()
        invariant
            i <= indexes@.len(),
            all == views(indexes@),
            forall|k: int|
                0 <= k < i ==> (#[trigger] all[k]).unique || !listed_in(
                    all[k].column_names,
                    name@,
                ),
        decreases indexes@.len() - i,
    {
        let index = &indexes[i];
        assert(all[i as int] == index@);
        if !index.unique && is_listed_in(&index.column_names, name) {
            return true;
        }
        i += 1;
    }
    false
}

/// How a column is indexed, in a word.
pub open spec fn key_word(
    column: ColumnModel,
    primary_key: Seq<char>,
    constraints: Seq<UniqueModel>,
    indexes: Seq<IndexModel>,
) -> Seq<char> {
    if column.primary_key || column.name == primary_key {
        "PRI"@
    } else if has_unique_constraint(constraints, column.name) || has_unique_index(
        indexes,
        column.name,
    ) {
        "UNI"@
    } else if has_plain_index(indexes, column.name) {
        "MUL"@
    } else {
        seq![]
    }
}

/// How a column is indexed, in a word.
pub fn mysql_column_key(
    column: &ColumnSchema,
    primary_key: &str,
    unique_constraints: &Vec<UniqueConstraintSchema>,
    indexes: &Vec<IndexCatalog>,
) -> (word: String)
    ensures
        word@ == key_word(column@, primary_key@, views(unique_constraints@), views(indexes@)),
{
    if column.primary_key || same_text(column.name.as_str(), primary_key) {
        "PRI".to_string()
    } else if is_unique_by_constraint(unique_constraints, column.name.as_str())
        || is_unique_by_index(indexes, column.name.as_str()) {
        "UNI".to_string()
    } else if is_in_plain_index(indexes, column.name.as_str()) {
        "MUL".to_string()
    } else {
        let none = String::new();
        assert(none@ =~= Seq::<char>::empty());
        none
    }
}

/// Whether a column counts by itself.
pub open spec fn counts_itself(column: ColumnModel) -> bool {
    column.default matches Some(default) && nextval_name(default) is Some
}

fn is_auto_increment(column: &ColumnSchema) -> (answer: bool)
    ensures
        answer == counts_itself(column@),
{
    match &column.default {
        Some(default) => nextval_sequence_name(default.as_str()).is_some(),
        None => false,
    }
}

/// What else is to be told of a column.
pub open spec fn extra_words(column: ColumnModel) -> Seq<char> {
    match column.on_update {
        Some(value) => if counts_itself(column) {
            "auto_increment on update "@ + value
        } else {
            "on update "@ + value
        },
        None => if counts_itself(column) {
            "auto_increment"@
        } else {
            seq![]
        },
    }
}

/// What else is to be told of a column.
pub fn mysql_column_extra(column: &ColumnSchema) -> (words: String)
    ensures
        words@ == extra_words(column@),
{
    let counts = is_auto_increment(column);
    match &column.on_update {
        Some(value) => {
            if counts {
                two_texts("auto_increment on update ", value.as_str())
            } else {
                two_texts("on update ", value.as_str())
            }
        },
        None => {
            if counts {
                "auto_increment".to_string()
            } else {
                let none = String::new();
                assert(none@ =~= Seq::<char>::empty());
                none
            }
        },
    }
}

/// What is told of a column.
pub open spec fn column_told(
    table: TableModel,
    indexes: Seq<IndexModel>,
    type_names: Seq<Seq<char>>,
    i: int,
) -> MetadataModel {
    let column = table.columns[i];
    MetadataModel {
        field: column.name,
        column_type: type_names[i],
        nullable: if column.nullable {
            "YES"@
        } else {
            "NO"@
        },
        key: key_word(column, table.primary_key, table.unique_constraints, indexes),
        default_value: column.default,
        extra: extra_words(column),
    }
}

/// What is told of the columns of a table; `type_names` are the names of their types.
pub open spec fn columns_told(
    table: TableModel,
    indexes: Seq<IndexModel>,
    type_names: Seq<Seq<char>>,
) -> Seq<MetadataModel> {
    Seq::new(table.columns.len(), |i: int| column_told(table, indexes, type_names, i))
}

/// What is told of the columns of a table; `type_names` are the names of their types.
pub fn mysql_describe_columns(
    schema: &TableSchema,
    indexes: &Vec<IndexCatalog>,
    type_names: &Vec<String>,
) -> (rows: Vec<MySqlColumnMetadata>)
    requires
        type_names@.len() == schema.columns@.len(),
    ensures
        views(rows@) == columns_told(schema@, views(indexes@), views(type_names@)),
{
    let ghost told = columns_told(schema@, views(indexes@), views(type_names@));
    let mut rows: Vec<MySqlColumnMetadata> = Vec::new();
    let mut i: usize = 0;
    while i < schema.columns.len()
        invariant
            i <= schema.columns@.len(),
            type_names@.len() == schema.columns@.len(),
            told == columns_told(schema@, views(indexes@), views(type_names@)),
            rows@.len() == i,
            forall|k: int| 0 <= k < i ==> (#[trigger] rows@[k])@ == told[k],
        decreases schema.columns@.len() - i,
    {
        let column = &schema.columns[i];
        assert(schema@.columns[i as int] == column@);
        assert(views(type_names@)[i as int] == type_names@[i as int]@);
        let nullable = if column.nullable {
            "YES"
        } else {
            "NO"
        };
        let row = MySqlColumnMetadata {
            field: column.name.clone(),
            column_type: type_names[i].clone(),
            nullable: nullable.to_string(),
            key: mysql_column_key(
                column,
                schema.primary_key.as_str(),
                &schema.unique_constraints,
                indexes,
            ),
            default_value: duplicate_option(&column.default),
            extra: mysql_column_extra(column),
        };
        assert(row@ == told[i as int]);
        rows.push(row);
        i += 1;
    }
    assert(views(rows@) =~= told);
    rows
}

/// The line of a column in the statement that makes its table.
pub open spec fn column_line(
    column: ColumnModel,
    shown_type: Seq<char>,
    primary_key: Seq<char>,
) -> Seq<char> {
    "  "@ + backquoted(column.name) + " "@ + shown_type + (if !column.nullable || column.primary_key
        || column.name == primary_key {
        " NOT NULL"@
    } else {
        seq![]
    }) + (if counts_itself(column) {
        " AUTO_INCREMENT"@
    } else {
        clause(" DEFAULT "@, column.default)
    }) + clause(" CHARACTER SET "@, column.character_set) + clause(" COLLATE "@, column.collation)
        + clause(" ON UPDATE "@, column.on_update)
}

/// A clause with a value, where there is one.
pub open spec fn clause(words: Seq<char>, value: Option<Seq<char>>) -> Seq<char> {
    match value {
        Some(value) => words + value,
        None => seq![],
    }
}

fn push_clause(line: &mut String, words: &str, value: &Option<String>)
    ensures
        final(line)@ == old(line)@ + clause(words@, option_view(*value)),
{
    match value {
        Some(text) => {
            line.push_str(words);
            line.push_str(text.as_str());
            assert(line@ =~= old(line)@ + (words@ + text@));
        },
        None => {
            assert(line@ =~= old(line)@ + Seq::<char>::empty());
        },
    }
}

fn line_of_column(column: &ColumnSchema, shown_type: &str, primary_key: &str) -> (line: String)
    ensures
        line@ == column_line(column@, shown_type@, primary_key@),
{
    let mut line = three_texts("  ", backquote(column.name.as_str()).as_str(), " ");
    line.push_str(shown_type);
    if !column.nullable || column.primary_key || same_text(column.name.as_str(), primary_key) {
        line.push_str(" NOT NULL");
    } else {
        assert(line@ =~= line@ + Seq::<char>::empty());
    }
    if is_auto_increment(column) {
        line.push_str(" AUTO_INCREMENT");
    } else {
        push_clause(&mut line, " DEFAULT ", &column.default);
    }
    push_clause(&mut line, " CHARACTER SET ", &column.character_set);
    push_clause(&mut line, " COLLATE ", &column.collation);
    push_clause(&mut line, " ON UPDATE ", &column.on_update);
    line
}

/// The lines of unique constraints in the statement that makes their table.
pub open spec fn constraint_lines(constraints: Seq<UniqueModel>) -> Seq<Seq<char>>
    decreases constraints.len(),
{
    if constraints.len() == 0 {
        seq![]
    } else {
        let before = constraint_lines(constraints.drop_last());
        let constraint = constraints.last();
        if constraint.primary_key {
            before
        } else {
            before.push(key_line("  UNIQUE KEY "@, constraint.name, constraint.columns))
        }
    }
}

/// The line of a key in the statement that makes its table.
pub open spec fn key_line(words: Seq<char>, name: Seq<char>, columns: Seq<Seq<char>>) -> Seq<char> {
    words + backquoted(name) + " ("@ + (backquoted_list(columns) + ")"@)
}

fn line_of_key(words: &str, name: &str, columns: &Vec<String>) -> (line: String)
    ensures
        line@ == key_line(words@, name@, views(columns@)),
{
    let list = two_texts(backquote_all(columns).as_str(), ")");
    let front = three_texts(words, backquote(name).as_str(), " (");
    two_texts(front.as_str(), list.as_str())
}

/// The line of an index in the statement that makes its table.
pub open spec fn index_line(index: IndexModel) -> Seq<char> {
    key_line(
        if index.unique {
            "  UNIQUE KEY "@
        } else {
            "  KEY "@
        },
        index.index_name,
        index.column_names,
    )
}

/// The lines of the statement that makes a table.
pub open spec fn table_lines(
    table: TableModel,
    indexes: Seq<IndexModel>,
    type_names: Seq<Seq<char>>,
) -> Seq<Seq<char>> {
    Seq::new(
        table.columns.len(),
        |i: int| column_line(table.columns[i], type_names[i], table.primary_key),
    ) + (if table.primary_key != INTERNAL_ROWID_COLUMN@ {
        seq!["  PRIMARY KEY ("@ + backquoted(table.primary_key) + ")"@]
    } else {
        seq![]
    }) + constraint_lines(table.unique_constraints) + indexes.map_values(
        |index: IndexModel| index_line(index),
    )
}

/// The statement that makes a table; `type_names` are the names of the types of its columns.
pub open spec fn create_statement(
    table: TableModel,
    indexes: Seq<IndexModel>,
    type_names: Seq<Seq<char>>,
) -> Seq<char> {
    "CREATE TABLE "@ + backquoted(table.table_name) + " (\n"@ + (joined(
        table_lines(table, indexes, type_names),
        ",\n"@,
    ) + "\n) ENGINE=UniDB DEFAULT CHARSET=utf8mb4 COLLATE=utf8mb4_0900_ai_ci"@)
}

fn push_constraint_lines(lines: &mut Vec<String>, constraints: &Vec<UniqueConstraintSchema>)
    ensures
        views(final(lines)@) == views(old(lines)@) + constraint_lines(views(constraints@)),
{
    let ghost all = views(constraints@);
    let ghost start = views(lines@);
    let mut i: usize = 0;
    assert(views(lines@) =~= start + constraint_lines(all.take(0)));
    while i < constraints.len()
        invariant
            i <= constraints@.len(),
            all == views(constraints@),
            start == views(old(lines)@),
            views(lines@) == start + constraint_lines(all.take(i as int)),
        decreases constraints@.len() - i,
    {
        let constraint = &constraints[i];
        assert(all.take(i + 1).drop_last() =~= all.take(i as int));
        assert(all.take(i + 1).last() == constraint@);
        if !constraint.primary_key {
            let ghost before = views(lines@);
            let line = line_of_key(
                "  UNIQUE KEY ",
                constraint.name.as_str(),
                &constraint.columns,
            );
            let ghost added = line@;
            lines.push(line);
            assert(views(lines@) =~= before.push(added));
            assert(views(lines@) =~= start + constraint_lines(all.take(i + 1)));
        }
        i += 1;
    }
    assert(all.take(i as int) =~= all);
}

/// The statement that makes a table; `type_names` are the names of the types of its columns.
pub fn mysql_create_statement(
    schema: &TableSchema,
    indexes: &Vec<IndexCatalog>,
    type_names: &Vec<String>,
) -> (text: String)
    requires
        type_names@.len() == schema.columns@.len(),
    ensures
        text@ == create_statement(schema@, views(indexes@), views(type_names@)),
{
    let ghost table = schema@;
    let ghost names = views(type_names@);
    let ghost columns = Seq::new(
        table.columns.len(),
        |i: int| column_line(table.columns[i], names[i], table.primary_key),
    );
    let mut lines: Vec<String> = Vec::new();
    let mut i: usize = 0;
    while i < schema.columns.len()
        invariant
            i <= schema.columns@.len(),
            type_names@.len() == schema.columns@.len(),
            table == schema@,
            names == views(type_names@),
            columns == Seq::new(
                table.columns.len(),
                |i: int| column_line(table.columns[i], names[i], table.primary_key),
            ),
            lines@.len() == i,
            forall|k: int| 0 <= k < i ==> (#[trigger] lines@[k])@ == columns[k],
        decreases schema.columns@.len() - i,
    {
        assert(table.columns[i as int] == schema.columns@[i as int]@);
        assert(names[i as int] == type_names@[i as int]@);
        lines.push(
            line_of_column(
                &schema.columns[i],
                type_names[i].as_str(),
                schema.primary_key.as_str(),
            ),
        );
        i += 1;
    }
    assert(views(lines@) =~= columns);
    let ghost primary = if table.primary_key != INTERNAL_ROWID_COLUMN@ {
        seq!["  PRIMARY KEY ("@ + backquoted(table.primary_key) + ")"@]
    } else {
        Seq::<Seq<char>>::empty()
    };
    if schema.has_user_primary_key() {
        let line = three_texts(
            "  PRIMARY KEY (",
            backquote(schema.primary_key.as_str()).as_str(),
            ")",
        );
        lines.push(line);
    }
    assert(views(lines@) =~= columns + primary);
    push_constraint_lines(&mut lines, &schema.unique_constraints);
    let ghost start = views(lines@);
    let ghost all = views(indexes@);
    let mut j: usize = 0;
    assert(all.take(0) =~= Seq::<IndexModel>::empty());
    assert(start =~= start + all.take(0).map_values(|index: IndexModel| index_line(index)));
    while j < indexes.len()
        invariant
            j <= indexes@.len(),
            all == views(indexes@),
            views(lines@) == start + all.take(j as int).map_values(
                |index: IndexModel| index_line(index),
            ),
        decreases indexes@.len() - j,
    {
        let index = &indexes[j];
        assert(all[j as int] == index@);
        let words = if index.unique {
            "  UNIQUE KEY "
        } else {
            "  KEY "
        };
        let line = line_of_key(words, index.index_name.as_str(), &index.column_names);
        let ghost before = views(lines@);
        let ghost added = line@;
        lines.push(line);
        assert(views(lines@) =~= before.push(added));
        assert(views(lines@) =~= start + all.take(j + 1).map_values(
            |index: IndexModel| index_line(index),
        ));
        j += 1;
    }
    assert(all.take(j as int) =~= all);
    assert(views(lines@) =~= table_lines(table, all, names));
    let body = two_texts(
        join_names(&lines, ",\n").as_str(),
        "\n) ENGINE=UniDB DEFAULT CHARSET=utf8mb4 COLLATE=utf8mb4_0900_ai_ci",
    );
    let front = three_texts(
        "CREATE TABLE ",
        backquote(schema.table_name.as_str()).as_str(),
        " (\n",
    );
    two_texts(front.as_str(), body.as_str())
}

/// The schemas that MySQL clients look in.
pub open spec fn mysql_search_path() -> Seq<Seq<char>> {
    seq![DEFAULT_SCHEMA_NAME@, DEFAULT_SCHEMA_NAME@]
}

/// A table that MySQL clients ask for.
pub open spec fn mysql_table(contents: Contents, database_name: Seq<char>, table_name: Seq<char>) -> Result<
    TableModel,
    Report,
> {
    match table_required(contents, database_name, mysql_search_path(), table_name) {
        Err(e) => Err(e),
        Ok((_, table)) => Ok(table),
    }
}

/// A table that MySQL clients ask for, with its indexes.
pub open spec fn mysql_table_with_indexes(
    contents: Contents,
    database_name: Seq<char>,
    table_name: Seq<char>,
) -> Result<(TableModel, Seq<IndexModel>), Report> {
    match mysql_table(contents, database_name, table_name) {
        Err(e) => Err(e),
        Ok(table) => match indexes_listed(contents, table.table_id) {
            Err(e) => Err(e),
            Ok(indexes) => Ok((table, indexes)),
        },
    }
}

impl<S: KvStore> GatewayServer<S> {
    /// The table that MySQL clients ask to be described, without its indexes.
    pub fn mysql_describe_table_fast(&mut self, database_name: &str, table_name: &str) -> (result:
        Result<TableSchema, UserError>)
        ensures
            final(self).reliable() == old(self).reliable(),
            final(self).same_sessions(old(self)),
            is_misreferred(table_name@) ==> final(self).contents() == old(self).contents(),
            not_internal(result) || old(self).reliable() || is_misreferred(table_name@) ==> only_opened(
                old(self).contents(),
                final(self).contents(),
            ) && (match result {
                Ok(schema) => Ok(schema@),
                Err(e) => Err(e@),
            }) == mysql_table(bootstrapped(old(self).contents()), database_name@, table_name@),
    {
        let mut search_path: Vec<String> = Vec::new();
        search_path.push(DEFAULT_SCHEMA_NAME.to_string());
        search_path.push(DEFAULT_SCHEMA_NAME.to_string());
        assert(views(search_path@) =~= mysql_search_path());
        match self.require_table(database_name, &search_path, table_name) {
            Err(e) => Err(e),
            Ok((_, schema)) => Ok(schema),
        }
    }

    /// The table that MySQL clients ask to be described, with its indexes.
    pub fn mysql_describe_table(&mut self, database_name: &str, table_name: &str) -> (result: Result<
        (TableSchema, Vec<IndexCatalog>),
        UserError,
    >)
        ensures
            final(self).reliable() == old(self).reliable(),
            final(self).same_sessions(old(self)),
            is_misreferred(table_name@) ==> final(self).contents() == old(self).contents(),
            not_internal(result) || old(self).reliable() || is_misreferred(table_name@) ==> only_opened(
                old(self).contents(),
                final(self).contents(),
            ) && (match result {
                Ok(found) => Ok((found.0@, views(found.1@))),
                Err(e) => Err(e@),
            }) == mysql_table_with_indexes(
                bootstrapped(old(self).contents()),
                database_name@,
                table_name@,
            ),
    {
        proof {
            law_bootstrap_is_stable(self.contents());
        }
        let schema = match self.mysql_describe_table_fast(database_name, table_name) {
            Err(e) => {
                return Err(e);
            },
            Ok(schema) => schema,
        };
        match self.catalog.list_indexes_for_table(schema.table_id) {
            Err(e) => Err(e),
            Ok(indexes) => Ok((schema, indexes)),
        }
    }

    /// The names of the tables of a database, in order.
    pub fn mysql_show_tables(&mut self, database_name: &str) -> (result: Result<
        Vec<String>,
        UserError,
    >)
        ensures
            final(self).reliable() == old(self).reliable(),
            final(self).same_sessions(old(self)),
            not_internal(result) || old(self).reliable() ==> only_opened(
                old(self).contents(),
                final(self).contents(),
            ) && seen_all(result) == (match tables_listed(
                bootstrapped(old(self).contents()),
                database_name@,
            ) {
                Err(e) => Err(e),
                Ok(tables) => Ok(
                    sorted(
                        tables.map_values(|table: TableEntry| table.table_name),
                        order_of::<String>(),
                    ),
                ),
            }),
    {
        proof {
            law_bootstrap_is_stable(self.contents());
        }
        let tables = match self.catalog.list_tables(database_name) {
            Err(e) => {
                return Err(e);
            },
            Ok(tables) => tables,
        };
        let ghost all = views(tables@).map_values(|table: TableEntry| table.table_name);
        let mut names: Vec<String> = Vec::new();
        let mut i: usize = 0;
        while i < tables.len()
            invariant
                i <= tables@.len(),
                all == views(tables@).map_values(|table: TableEntry| table.table_name),
                names@.len() == i,
                forall|k: int| 0 <= k < i ==> (#[trigger] names@[k])@ == all[k],
            decreases tables@.len() - i,
        {
            names.push(tables[i].table_name.clone());
            i += 1;
        }
        assert(views(names@) =~= all);
        Ok(sort_items(names))
    }

    /// The names of the databases, in order.
    pub fn mysql_show_databases(&mut self) -> (result: Result<Vec<String>, UserError>)
        ensures
            final(self).reliable() == old(self).reliable(),
            final(self).same_sessions(old(self)),
            not_internal(result) || old(self).reliable() ==> only_opened(
                old(self).contents(),
                final(self).contents(),
            ) && seen_all(result) == (match databases_listed(
                bootstrapped(old(self).contents()),
            ) {
                Err(e) => Err(e),
                Ok(databases) => Ok(
                    sorted(
                        databases.map_values(
                            |database: DatabaseModel| database.database_name,
                        ),
                        order_of::<String>(),
                    ),
                ),
            }),
    {
        proof {
            law_bootstrap_is_stable(self.contents());
        }
        let databases = match self.catalog.list_databases() {
            Err(e) => {
                return Err(e);
            },
            Ok(databases) => databases,
        };
        let ghost all = views(databases@).map_values(
            |database: DatabaseModel| database.database_name,
        );
        let mut names: Vec<String> = Vec::new();
        let mut i: usize = 0;
        while i < databases.len()
            invariant
                i <= databases@.len(),
                all == views(databases@).map_values(
                    |database: DatabaseModel| database.database_name,
                ),
                names@.len() == i,
                forall|k: int| 0 <= k < i ==> (#[trigger] names@[k])@ == all[k],
            decreases databases@.len() - i,
        {
            names.push(databases[i].database_name.clone());
            i += 1;
        }
        assert(views(names@) =~= all);
        Ok(sort_items(names))
    }
}

} // verus!
