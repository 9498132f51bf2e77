//! Queries that the query engine runs: how views are put into them, and how their results become
//! rows of a table.
use vstd::prelude::*;

use crate::catalog::model::{bootstrapped, law_bootstrap_is_stable, views_listed};
use crate::catalog::types::{ViewCatalog, ViewModel};
use crate::error::{not_internal, report, user_error_text, Report, UserError};
use crate::mem_store::KvStore;
use crate::names::seen_text;
use crate::row::{RowMap, RowModel};
use crate::schema::{
    has_column, seen, seen_all, views, ColumnModel, Duplicate, TableModel, TableSchema,
};
use crate::server::alter::{no_column, no_column_error};
use crate::server::copy::seen_values;
use crate::server::ddl_columns::two_texts;
use crate::server::ddl_plan::{each_resolved, lemma_each_fails};
use crate::server::gateway::{only_opened, GatewayServer};
use crate::server::query_flow::{is_word_char, is_word_letter};
use crate::server::statements::SessionCatalog;
use crate::text::{
    begins, begins_with, chars_of, decimal, decimal_text, is_space, lower, lower_text, part,
    three_texts, trim_start, trim_start_chars,
};
use crate::types::{ColumnValue, DataType, Datum};

verus! {

/// The types of the query engine's columns, as far as they are told apart.
#[derive(Clone, Copy, Debug, PartialEq, Eq, Structural)]
pub enum ArrowType {
    Int8,
    Int16,
    Int32,
    Int64,
    UInt8,
    UInt16,
    UInt32,
    UInt64,
    Float32,
    Float64,
    Boolean,
    Date32,
    Date64,
    Timestamp,
    Other,
}

/// The type of a column for values of the query engine.
pub open spec fn gateway_type(data_type: ArrowType) -> DataType {
    match data_type {
        ArrowType::Int16 => DataType::Int16,
        ArrowType::Int8 => DataType::Int32,
        ArrowType::Int32 => DataType::Int32,
        ArrowType::UInt8 => DataType::Int32,
        ArrowType::UInt16 => DataType::Int32,
        ArrowType::Int64 => DataType::Int64,
        ArrowType::UInt32 => DataType::Int64,
        ArrowType::UInt64 => DataType::Int64,
        ArrowType::Float32 => DataType::Float32,
        ArrowType::Float64 => DataType::Float64,
        ArrowType::Boolean => DataType::Boolean,
        ArrowType::Date32 => DataType::Date,
        ArrowType::Date64 => DataType::Date,
        ArrowType::Timestamp => DataType::Timestamp,
        ArrowType::Other => DataType::Text,
    }
}

/// The type of a column for values of the query engine.
pub fn arrow_type_to_gateway_type(data_type: ArrowType) -> (found: DataType)
    ensures
        found == gateway_type(data_type),
{
    match data_type {
        ArrowType::Int16 => DataType::Int16,
        ArrowType::Int8 | ArrowType::Int32 | ArrowType::UInt8 | ArrowType::UInt16 => {
            DataType::Int32
        },
        ArrowType::Int64 | ArrowType::UInt32 | ArrowType::UInt64 => DataType::Int64,
        ArrowType::Float32 => DataType::Float32,
        ArrowType::Float64 => DataType::Float64,
        ArrowType::Boolean => DataType::Boolean,
        ArrowType::Date32 | ArrowType::Date64 => DataType::Date,
        ArrowType::Timestamp => DataType::Timestamp,
        ArrowType::Other => DataType::Text,
    }
}

/// Whether a text starts with a keyword, white space and the name of a relation that ends there.
pub open spec fn reads_relation(text: Seq<char>, keyword: Seq<char>, relation: Seq<char>) -> bool {
    let rest = text.skip(keyword.len() as int);
    let name = trim_start(rest);
    begins(lower(text), keyword) && name.len() < rest.len() && begins(lower(name), lower(relation))
        && (name.len() == relation.len() || !(is_word_char(name[relation.len() as int])
        || name[relation.len() as int] == '.'))
}

/// A text in which a relation is replaced wherever a keyword stands in front of it; `in_word` says
/// whether the text goes on in a word.
pub open spec fn relation_replaced(
    text: Seq<char>,
    keyword: Seq<char>,
    relation: Seq<char>,
    replacement: Seq<char>,
    in_word: bool,
) -> Seq<char>
    decreases text.len(),
{
    if text.len() == 0 {
        seq![]
    } else if !in_word && keyword.len() > 0 && reads_relation(text, keyword, relation) {
        let rest = text.skip(keyword.len() as int);
        let name = trim_start(rest);
        text.take(text.len() - name.len()) + replacement + relation_replaced(
            name.skip(relation.len() as int),
            keyword,
            relation,
            replacement,
            true,
        )
    } else {
        seq![text[0]] + relation_replaced(
            text.skip(1),
            keyword,
            relation,
            replacement,
            is_word_char(text[0]),
        )
    }
}

proof fn lemma_trim_start_tail(text: Seq<char>)
    ensures
        trim_start(text).len() <= text.len(),
        trim_start(text) == text.skip(text.len() - trim_start(text).len()),
    decreases text.len(),
{
    if text.len() > 0 && is_space(text[0]) {
        let rest = text.skip(1);
        lemma_trim_start_tail(rest);
        assert(rest.skip(rest.len() - trim_start(rest).len()) =~= text.skip(
            text.len() - trim_start(text).len(),
        ));
    } else {
        assert(text.skip(0) =~= text);
    }
}

/// A text that names the relation nowhere stays as it is.
pub proof fn law_other_relations_stay(
    text: Seq<char>,
    keyword: Seq<char>,
    relation: Seq<char>,
    replacement: Seq<char>,
    in_word: bool,
)
    requires
        forall|i: int|
            0 <= i < text.len() ==> !reads_relation(#[trigger] text.skip(i), keyword, relation),
    ensures
        relation_replaced(text, keyword, relation, replacement, in_word) == text,
    decreases text.len(),
{
    if text.len() > 0 {
        assert(text.skip(0) =~= text);
        let rest = text.skip(1);
        assert forall|i: int| 0 <= i < rest.len() implies !reads_relation(
            #[trigger] rest.skip(i),
            keyword,
            relation,
        ) by {
            assert(rest.skip(i) =~= text.skip(i + 1));
        }
        law_other_relations_stay(rest, keyword, relation, replacement, is_word_char(text[0]));
        assert(seq![text[0]] + rest =~= text);
    } else {
        assert(relation_replaced(text, keyword, relation, replacement, in_word) =~= text);
    }
}

/// A statement in which a relation is replaced wherever a keyword stands in front of it.
pub fn replace_relation_after_keyword(
    sql: &str,
    keyword: &str,
    relation: &str,
    replacement: &str,
) -> (text: String)
    ensures
        text@ == relation_replaced(sql@, keyword@, relation@, replacement@, false),
{
    let chars = chars_of(sql);
    let small = chars_of(lower_text(sql).as_str());
    let small_relation = lower_text(relation);
    let keyword_len: usize = chars_of(keyword).len();
    let relation_len: usize = chars_of(relation).len();
    let end: usize = chars.len();
    let mut text = String::new();
    let mut in_word = false;
    let mut i: usize = 0;
    assert(sql@.skip(0) =~= sql@);
    assert(text@ + relation_replaced(sql@, keyword@, relation@, replacement@, false)
        =~= relation_replaced(sql@, keyword@, relation@, replacement@, false));
    while i < end
        invariant
            i <= end,
            end == chars@.len(),
            chars@ == sql@,
            small@ == lower(sql@),
            small_relation@ == lower(relation@),
            keyword_len == keyword@.len(),
            relation_len == relation@.len(),
            relation_replaced(sql@, keyword@, relation@, replacement@, false) == text@
                + relation_replaced(
                sql@.skip(i as int),
                keyword@,
                relation@,
                replacement@,
                in_word,
            ),
        decreases end - i,
    {
        let ghost here = sql@.skip(i as int);
        let ghost before = text@;
        let small_here = part(small.as_slice(), i, end);
        assert(small_here@ =~= lower(here));
        if !in_word && keyword_len > 0 && begins_with(small_here, keyword) {
            let rest = part(chars.as_slice(), i + keyword_len, end);
            assert(rest@ =~= here.skip(keyword@.len() as int));
            let name = trim_start_chars(rest);
            proof {
                lemma_trim_start_tail(rest@);
            }
            if name.len() < rest.len() {
                let at: usize = end - name.len();
                let small_name = part(small.as_slice(), at, end);
                assert(name@ =~= sql@.skip(at as int));
                assert(small_name@ =~= lower(name@));
                if begins_with(small_name, small_relation.as_str()) {
                    assert(lower(relation@).len() == relation@.len());
                    assert(small_name@.len() == name@.len());
                    let ends = name.len() == relation_len || !(is_word_letter(name[relation_len])
                        || name[relation_len] == '.');
                    if ends {
                        let front = part(chars.as_slice(), i, at);
                        assert(front@ =~= here.take(here.len() - name@.len()));
                        let mut k: usize = 0;
                        assert(front@.take(0) =~= Seq::<char>::empty());
                        assert(text@ =~= before + front@.take(0));
                        while k < front.len()
                            invariant
                                k <= front@.len(),
                                text@ == before + front@.take(k as int),
                            decreases front@.len() - k,
                        {
                            text.push(front[k]);
                            assert(text@ =~= before + front@.take(k + 1));
                            k += 1;
                        }
                        assert(front@.take(k as int) =~= front@);
                        text.push_str(replacement);
                        let ghost tail = name@.skip(relation@.len() as int);
                        assert(tail =~= sql@.skip(at + relation_len));
                        assert(before + (front@ + replacement@ + relation_replaced(
                            tail,
                            keyword@,
                            relation@,
                            replacement@,
                            true,
                        )) =~= before + front@ + replacement@ + relation_replaced(
                            tail,
                            keyword@,
                            relation@,
                            replacement@,
                            true,
                        ));
                        i = at + relation_len;
                        in_word = true;
                        continue;
                    }
                }
            }
        }
        let ch = chars[i];
        text.push(ch);
        assert(here.skip(1) =~= sql@.skip(i + 1));
        assert(before + (seq![here[0]] + relation_replaced(
            here.skip(1),
            keyword@,
            relation@,
            replacement@,
            is_word_char(here[0]),
        )) =~= before.push(here[0]) + relation_replaced(
            here.skip(1),
            keyword@,
            relation@,
            replacement@,
            is_word_char(here[0]),
        ));
        in_word = is_word_letter(ch);
        i += 1;
    }
    assert(sql@.skip(i as int) =~= Seq::<char>::empty());
    assert(text@ + Seq::<char>::empty() =~= text@);
    text
}

/// A statement in which a view stands for its definition, with or without its schema.
pub open spec fn view_expanded(text: Seq<char>, view: ViewModel) -> Seq<char> {
    let replacement = "("@ + view.definition + ") AS "@ + view.view_name;
    let full_name = view.schema_name + "."@ + view.view_name;
    let first = relation_replaced(text, "from"@, view.view_name, replacement, false);
    let second = relation_replaced(first, "join"@, view.view_name, replacement, false);
    let third = relation_replaced(second, "from"@, full_name, replacement, false);
    relation_replaced(third, "join"@, full_name, replacement, false)
}

/// A statement in which views stand for their definitions.
pub open spec fn views_expanded(text: Seq<char>, found: Seq<ViewModel>) -> Seq<char>
    decreases found.len(),
{
    if found.len() == 0 {
        text
    } else {
        view_expanded(views_expanded(text, found.drop_last()), found.last())
    }
}

/// A statement in which views stand for their definitions.
pub fn expand_views(sql: &str, found: &Vec<ViewCatalog>) -> (text: String)
    ensures
        text@ == views_expanded(sql@, views(found@)),
{
    let ghost all = views(found@);
    let mut text = sql.to_string();
    let mut i: usize = 0;
    assert(all.take(0) =~= Seq::<ViewModel>::empty());
    while i < found.len()
        invariant
            i <= found@.len(),
            all == views(found@),
            text@ == views_expanded(sql@, all.take(i as int)),
        decreases found@.len() - i,
    {
        let view = &found[i];
        assert(all.take(i + 1).drop_last() =~= all.take(i as int));
        assert(all.take(i + 1).last() == view@);
        let front = three_texts("(", view.definition.as_str(), ") AS ");
        let replacement = two_texts(front.as_str(), view.view_name.as_str());
        let full_name = three_texts(view.schema_name.as_str(), ".", view.view_name.as_str());
        let first = replace_relation_after_keyword(
            text.as_str(),
            "from",
            view.view_name.as_str(),
            replacement.as_str(),
        );
        let second = replace_relation_after_keyword(
            first.as_str(),
            "join",
            view.view_name.as_str(),
            replacement.as_str(),
        );
        let third = replace_relation_after_keyword(
            second.as_str(),
            "from",
            full_name.as_str(),
            replacement.as_str(),
        );
        text = replace_relation_after_keyword(
            third.as_str(),
            "join",
            full_name.as_str(),
            replacement.as_str(),
        );
        i += 1;
    }
    assert(all.take(i as int) =~= all);
    text
}

impl<S: KvStore> GatewayServer<S> {
    /// A statement in which the views of a client's database stand for their definitions.
    pub fn expand_views_in_sql(&mut self, sql: &str, session: &SessionCatalog) -> (result: Result<
        String,
        UserError,
    >)
        ensures
            final(self).reliable() == old(self).reliable(),
            final(self).same_sessions(old(self)),
            not_internal(result) || old(self).reliable() ==> only_opened(
                old(self).contents(),
                final(self).contents(),
            ) && seen_text(result) == (match views_listed(
                bootstrapped(old(self).contents()),
                session@.database_name,
            ) {
                Err(e) => Err(e),
                Ok(found) => Ok(views_expanded(sql@, found)),
            }),
    {
        proof {
            law_bootstrap_is_stable(self.contents());
        }
        match self.catalog.list_views(session.database_name.as_str()) {
            Err(e) => Err(e),
            Ok(found) => Ok(expand_views(sql, &found)),
        }
    }
}

/// Rows of texts that a query gave, each text read as its column's type.
#[derive(Debug)]
pub struct QueryBatch {
    pub width: usize,
    pub rows: Vec<QueryRow>,
}

/// The values of a row that a query gave.
#[derive(Debug)]
pub struct QueryRow {
    pub values: Vec<Result<ColumnValue, UserError>>,
}

impl View for QueryRow {
    type V = Seq<Result<Datum, Report>>;

    open spec fn view(&self) -> Seq<Result<Datum, Report>> {
        seen_values(self.values@)
    }
}

/// What a [`QueryBatch`] says.
pub struct BatchModel {
    pub width: usize,
    pub rows: Seq<Seq<Result<Datum, Report>>>,
}

impl View for QueryBatch {
    type V = BatchModel;

    open spec fn view(&self) -> BatchModel {
        BatchModel { width: self.width, rows: views(self.rows@) }
    }
}

/// The row with the values for its columns.
pub open spec fn targets_filled(
    table: TableModel,
    targets: Seq<Seq<char>>,
    values: Seq<Result<Datum, Report>>,
) -> Result<RowModel, Report>
    decreases targets.len(),
{
    if targets.len() == 0 {
        Ok(Map::empty())
    } else {
        match targets_filled(table, targets.drop_last(), values.drop_last()) {
            Err(e) => Err(e),
            Ok(row) => if !has_column(table.columns, targets.last()) {
                Err(no_column(targets.last()))
            } else {
                match values.last() {
                    Err(e) => Err(e),
                    Ok(value) => Ok(row.insert(targets.last(), value)),
                }
            },
        }
    }
}

proof fn lemma_targets_fail(
    table: TableModel,
    targets: Seq<Seq<char>>,
    values: Seq<Result<Datum, Report>>,
    n: int,
)
    requires
        0 <= n <= targets.len(),
        targets.len() == values.len(),
        targets_filled(table, targets.take(n), values.take(n)) is Err,
    ensures
        targets_filled(table, targets, values) == targets_filled(
            table,
            targets.take(n),
            values.take(n),
        ),
    decreases targets.len() - n,
{
    if n == targets.len() {
        assert(targets.take(n) =~= targets);
        assert(values.take(n) =~= values);
    } else {
        assert(targets.take(n + 1).drop_last() =~= targets.take(n));
        assert(values.take(n + 1).drop_last() =~= values.take(n));
        lemma_targets_fail(table, targets, values, n + 1);
    }
}

/// The row with defaults for the columns that it does not have.
pub open spec fn defaults_filled(
    columns: Seq<ColumnModel>,
    defaults: Seq<Result<Datum, Report>>,
    row: RowModel,
) -> Result<RowModel, Report>
    decreases columns.len(),
{
    if columns.len() == 0 || defaults.len() == 0 {
        Ok(row)
    } else {
        match defaults_filled(columns.drop_last(), defaults.drop_last(), row) {
            Err(e) => Err(e),
            Ok(filled) => if filled.dom().contains(columns.last().name) {
                Ok(filled)
            } else {
                match defaults.last() {
                    Err(e) => Err(e),
                    Ok(value) => Ok(filled.insert(columns.last().name, value)),
                }
            },
        }
    }
}

proof fn lemma_defaults_fail(
    columns: Seq<ColumnModel>,
    defaults: Seq<Result<Datum, Report>>,
    row: RowModel,
    n: int,
)
    requires
        0 <= n <= columns.len(),
        columns.len() == defaults.len(),
        defaults_filled(columns.take(n), defaults.take(n), row) is Err,
    ensures
        defaults_filled(columns, defaults, row) == defaults_filled(
            columns.take(n),
            defaults.take(n),
            row,
        ),
    decreases columns.len() - n,
{
    if n == columns.len() {
        assert(columns.take(n) =~= columns);
        assert(defaults.take(n) =~= defaults);
    } else {
        assert(columns.take(n + 1).drop_last() =~= columns.take(n));
        assert(defaults.take(n + 1).drop_last() =~= defaults.take(n));
        lemma_defaults_fail(columns, defaults, row, n + 1);
    }
}

/// The row that a query's values make.
pub open spec fn query_row(
    table: TableModel,
    targets: Seq<Seq<char>>,
    defaults: Seq<Result<Datum, Report>>,
    values: Seq<Result<Datum, Report>>,
) -> Result<RowModel, Report> {
    match targets_filled(table, targets, values) {
        Err(e) => Err(e),
        Ok(row) => defaults_filled(table.columns, defaults, row),
    }
}

/// The values for the target columns stay, whatever the defaults are, and a row that is made has a
/// value for every column.
pub proof fn law_query_values_stay(
    columns: Seq<ColumnModel>,
    defaults: Seq<Result<Datum, Report>>,
    row: RowModel,
)
    requires
        columns.len() == defaults.len(),
    ensures
        defaults_filled(columns, defaults, row) matches Ok(filled) ==> (forall|name: Seq<char>|
            #[trigger]
            row.dom().contains(name) ==> filled.dom().contains(name) && filled[name]
                == row[name]) && (forall|i: int|
            0 <= i < columns.len() ==> filled.dom().contains((#[trigger] columns[i]).name)),
    decreases columns.len(),
{
    if columns.len() > 0 {
        let rest = columns.drop_last();
        law_query_values_stay(rest, defaults.drop_last(), row);
        if defaults_filled(columns, defaults, row) is Ok {
            let filled = defaults_filled(columns, defaults, row)->Ok_0;
            let before = defaults_filled(rest, defaults.drop_last(), row)->Ok_0;
            assert forall|i: int| 0 <= i < columns.len() implies filled.dom().contains(
                (#[trigger] columns[i]).name,
            ) by {
                if i < columns.len() - 1 {
                    assert(rest[i] == columns[i]);
                } else {
                    assert(columns[i] == columns.last());
                }
            }
            assert forall|name: Seq<char>| #[trigger]
                row.dom().contains(name) implies filled.dom().contains(name) && filled[name]
                == row[name] by {
                assert(before.dom().contains(name) && before[name] == row[name]);
            }
        }
    }
}

fn row_for_schema(
    schema: &TableSchema,
    targets: &Vec<String>,
    defaults: &Vec<Result<ColumnValue, UserError>>,
    values: &QueryRow,
) -> (result: Result<RowMap, UserError>)
    requires
        values.values@.len() == targets@.len(),
        defaults@.len() == schema.columns@.len(),
    ensures
        seen(result) == query_row(schema@, views(targets@), seen_values(defaults@), values@),
{
    let ghost table = schema@;
    let ghost names = views(targets@);
    let ghost given = values@;
    let ghost fallback = seen_values(defaults@);
    let mut row = RowMap::new();
    let mut i: usize = 0;
    while i < targets.len()
        invariant
            i <= targets@.len(),
            values.values@.len() == targets@.len(),
            table == schema@,
            names == views(targets@),
            given == values@,
            targets_filled(table, names.take(i as int), given.take(i as int)) == Ok::<
                RowModel,
                Report,
            >(row@),
        decreases targets@.len() - i,
    {
        proof {
            assert(names.take(i + 1).drop_last() =~= names.take(i as int));
            assert(given.take(i + 1).drop_last() =~= given.take(i as int));
            assert(names.take(i + 1).last() == targets@[i as int]@);
            assert(given.take(i + 1).last() == seen(values.values@[i as int]));
        }
        if schema.find_column(targets[i].as_str()).is_none() {
            proof {
                lemma_targets_fail(table, names, given, i + 1);
            }
            return Err(no_column_error(targets[i].as_str()));
        }
        match &values.values[i] {
            Err(e) => {
                proof {
                    lemma_targets_fail(table, names, given, i + 1);
                }
                return Err(e.duplicate());
            },
            Ok(value) => {
                row.insert(targets[i].clone(), value.copied());
            },
        }
        i += 1;
    }
    assert(names.take(i as int) =~= names);
    assert(given.take(i as int) =~= given);
    let ghost first = row@;
    let ghost columns = table.columns;
    let mut j: usize = 0;
    assert(columns.take(0) =~= Seq::<ColumnModel>::empty());
    while j < schema.columns.len()
        invariant
            j <= schema.columns@.len(),
            defaults@.len() == schema.columns@.len(),
            table == schema@,
            names == views(targets@),
            given == values@,
            columns == views(schema.columns@),
            fallback == seen_values(defaults@),
            defaults_filled(columns.take(j as int), fallback.take(j as int), first) == Ok::<
                RowModel,
                Report,
            >(row@),
            query_row(table, names, fallback, given) == defaults_filled(columns, fallback, first),
        decreases schema.columns@.len() - j,
    {
        let column = &schema.columns[j];
        proof {
            assert(columns.take(j + 1).drop_last() =~= columns.take(j as int));
            assert(fallback.take(j + 1).drop_last() =~= fallback.take(j as int));
            assert(columns.take(j + 1).last() == column@);
            assert(fallback.take(j + 1).last() == seen(defaults@[j as int]));
        }
        if row.get(column.name.as_str()).is_none() {
            match &defaults[j] {
                Err(e) => {
                    proof {
                        lemma_defaults_fail(columns, fallback, first, j + 1);
                    }
                    return Err(e.duplicate());
                },
                Ok(value) => {
                    row.insert(column.name.clone(), value.copied());
                },
            }
        }
        j += 1;
    }
    assert(columns.take(j as int) =~= columns);
    assert(fallback.take(j as int) =~= fallback);
    Ok(row)
}

/// The rows that a batch makes; it has to have as many columns as there are targets.
pub open spec fn batch_rows(
    table: TableModel,
    targets: Seq<Seq<char>>,
    defaults: Seq<Result<Datum, Report>>,
    batch: BatchModel,
) -> Result<Seq<RowModel>, Report> {
    if batch.width != targets.len() {
        Err(
            report(
                "42601"@,
                "INSERT has "@ + decimal(targets.len()) + " target columns but query returns "@ + (
                decimal(batch.width as nat) + " columns"@),
            ),
        )
    } else {
        each_resolved(
            batch.rows,
            |values: Seq<Result<Datum, Report>>| query_row(table, targets, defaults, values),
        )
    }
}

/// The rows that batches make.
pub open spec fn batches_rows(
    table: TableModel,
    targets: Seq<Seq<char>>,
    defaults: Seq<Result<Datum, Report>>,
    batches: Seq<BatchModel>,
) -> Result<Seq<RowModel>, Report>
    decreases batches.len(),
{
    if batches.len() == 0 {
        Ok(seq![])
    } else {
        match batches_rows(table, targets, defaults, batches.drop_last()) {
            Err(e) => Err(e),
            Ok(rows) => match batch_rows(table, targets, defaults, batches.last()) {
                Err(e) => Err(e),
                Ok(more) => Ok(rows + more),
            },
        }
    }
}

proof fn lemma_batches_fail(
    table: TableModel,
    targets: Seq<Seq<char>>,
    defaults: Seq<Result<Datum, Report>>,
    batches: Seq<BatchModel>,
    n: int,
)
    requires
        0 <= n <= batches.len(),
        batches_rows(table, targets, defaults, batches.take(n)) is Err,
    ensures
        batches_rows(table, targets, defaults, batches) == batches_rows(
            table,
            targets,
            defaults,
            batches.take(n),
        ),
    decreases batches.len() - n,
{
    if n == batches.len() {
        assert(batches.take(n) =~= batches);
    } else {
        assert(batches.take(n + 1).drop_last() =~= batches.take(n));
        lemma_batches_fail(table, targets, defaults, batches, n + 1);
    }
}

fn rows_of_batch(
    schema: &TableSchema,
    targets: &Vec<String>,
    defaults: &Vec<Result<ColumnValue, UserError>>,
    batch: &QueryBatch,
) -> (result: Result<Vec<RowMap>, UserError>)
    requires
        defaults@.len() == schema.columns@.len(),
        forall|i: int|
            0 <= i < batch.rows@.len() ==> (#[trigger] batch.rows@[i]).values@.len() == batch.width,
    ensures
        seen_all(result) == batch_rows(
            schema@,
            views(targets@),
            seen_values(defaults@),
            batch@,
        ),
{
    if batch.width != targets.len() {
        let front = three_texts(
            "INSERT has ",
            decimal_text(targets.len() as u64).as_str(),
            " target columns but query returns ",
        );
        let behind = two_texts(decimal_text(batch.width as u64).as_str(), " columns");
        return Err(user_error_text("42601", two_texts(front.as_str(), behind.as_str())));
    }
    let ghost all = batch@.rows;
    let ghost make = |values: Seq<Result<Datum, Report>>|
        query_row(schema@, views(targets@), seen_values(defaults@), values);
    let mut rows: Vec<RowMap> = Vec::new();
    let mut i: usize = 0;
    assert(views(rows@) =~= Seq::<RowModel>::empty());
    while i < batch.rows.len()
        invariant
            i <= batch.rows@.len(),
            batch.width == targets@.len(),
            defaults@.len() == schema.columns@.len(),
            forall|i: int|
                0 <= i < batch.rows@.len() ==> (#[trigger] batch.rows@[i]).values@.len()
                    == batch.width,
            all == batch@.rows,
            make == (|values: Seq<Result<Datum, Report>>|
                query_row(schema@, views(targets@), seen_values(defaults@), values)),
            each_resolved(all.take(i as int), make) == Ok::<Seq<RowModel>, Report>(views(rows@)),
        decreases batch.rows@.len() - i,
    {
        proof {
            assert(all.take(i + 1).drop_last() =~= all.take(i as int));
            assert(all.take(i + 1).last() == batch.rows@[i as int]@);
        }
        match row_for_schema(schema, targets, defaults, &batch.rows[i]) {
            Err(e) => {
                proof {
                    lemma_each_fails(all, make, i + 1);
                }
                return Err(e);
            },
            Ok(row) => {
                let ghost before = views(rows@);
                let ghost added = row@;
                rows.push(row);
                assert(views(rows@) =~= before.push(added));
            },
        }
        i += 1;
    }
    assert(all.take(i as int) =~= all);
    Ok(rows)
}

/// The rows of a table that the batches of a query's result make. `defaults` says of each column
/// of the table what its default comes to.
pub fn datafusion_rows_for_schema(
    batches: &Vec<QueryBatch>,
    schema: &TableSchema,
    target_columns: &Vec<String>,
    defaults: &Vec<Result<ColumnValue, UserError>>,
) -> (result: Result<Vec<RowMap>, UserError>)
    requires
        defaults@.len() == schema.columns@.len(),
        forall|b: int, i: int|
            0 <= b < batches@.len() && 0 <= i < batches@[b].rows@.len() ==> (
            #[trigger] batches@[b].rows@[i]).values@.len() == batches@[b].width,
    ensures
        seen_all(result) == batches_rows(
            schema@,
            views(target_columns@),
            seen_values(defaults@),
            views(batches@),
        ),
{
    let ghost all = views(batches@);
    let ghost table = schema@;
    let ghost targets = views(target_columns@);
    let ghost fallback = seen_values(defaults@);
    let mut rows: Vec<RowMap> = Vec::new();
    let mut i: usize = 0;
    assert(views(rows@) =~= Seq::<RowModel>::empty());
    while i < batches.len()
        invariant
            i <= batches@.len(),
            defaults@.len() == schema.columns@.len(),
            forall|b: int, i: int|
                0 <= b < batches@.len() && 0 <= i < batches@[b].rows@.len() ==> (
                #[trigger] batches@[b].rows@[i]).values@.len() == batches@[b].width,
            all == views(batches@),
            table == schema@,
            targets == views(target_columns@),
            fallback == seen_values(defaults@),
            batches_rows(table, targets, fallback, all.take(i as int)) == Ok::<
                Seq<RowModel>,
                Report,
            >(views(rows@)),
        decreases batches@.len() - i,
    {
        proof {
            assert(all.take(i + 1).drop_last() =~= all.take(i as int));
            assert(all.take(i + 1).last() == batches@[i as int]@);
        }
        match rows_of_batch(schema, target_columns, defaults, &batches[i]) {
            Err(e) => {
                proof {
                    lemma_batches_fail(table, targets, fallback, all, i + 1);
                }
                return Err(e);
            },
            Ok(mut more) => {
                let ghost before = views(rows@);
                let ghost added = views(more@);
                rows.append(&mut more);
                assert(views(rows@) =~= before + added);
            },
        }
        i += 1;
    }
    assert(all.take(i as int) =~= all);
    Ok(rows)
}

} // verus!
