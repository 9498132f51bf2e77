//! Sequences that give columns their values.
use vstd::prelude::*;

use crate::schema::{views, ColumnModel, ColumnSchema, TableSchema};
use crate::text::{begins, begins_with, chars_of, part, string_of, three_texts};

verus! {

/// The sequence that a default takes its next value from: the name in `nextval('...')`.
pub open spec fn nextval_name(default: Seq<char>) -> Option<Seq<char>> {
    if begins(default, "nextval('"@) && default.len() >= 11 && default.skip(default.len() - 2)
        == seq!['\'', ')'] {
        Some(default.subrange(9, default.len() - 2))
    } else {
        None
    }
}

/// The sequence that a default takes its next value from.
pub fn nextval_sequence_name(default: &str) -> (name: Option<String>)
    ensures
        crate::schema::option_view(name) == nextval_name(default@),
{
    proof {
        reveal_strlit("nextval('");
        assert("nextval('"@.len() == 9);
    }
    let chars = chars_of(default);
    if !begins_with(chars.as_slice(), "nextval('") || chars.len() < 11 {
        return None;
    }
    let n: usize = chars.len();
    proof {
        assert(default@.skip(n - 2) =~= seq![default@[n - 2], default@[n - 1]]);
        let end = seq!['\'', ')'];
        assert(end[0] == '\'' && end[1] == ')');
        if default@.skip(n - 2) == end {
            assert(default@.skip(n - 2)[0] == end[0]);
            assert(default@.skip(n - 2)[1] == end[1]);
        }
    }
    if chars[n - 2] != '\'' || chars[n - 1] != ')' {
        return None;
    }
    Some(string_of(part(chars.as_slice(), 9, n - 2)))
}

/// The sequence of a column that numbers the rows of its table.
pub open spec fn serial_name(
    schema_name: Seq<char>,
    table_name: Seq<char>,
    column_name: Seq<char>,
) -> Seq<char> {
    schema_name + "."@ + table_name + "_"@ + column_name + "_seq"@
}

/// The sequence of a column that numbers the rows of its table.
pub fn serial_sequence_name(schema_name: &str, table_name: &str, column_name: &str) -> (name: String)
    ensures
        name@ == serial_name(schema_name@, table_name@, column_name@),
{
    let mut name = three_texts(schema_name, ".", table_name);
    name.push_str("_");
    name.push_str(column_name);
    name.push_str("_seq");
    name
}

/// The default of a column that takes its values from a sequence.
pub open spec fn nextval_default(sequence: Seq<char>) -> Seq<char> {
    "nextval('"@ + sequence + "')"@
}

/// The default of a column that takes its values from a sequence.
pub fn nextval_default_text(sequence: &str) -> (default: String)
    ensures
        default@ == nextval_default(sequence@),
{
    three_texts("nextval('", sequence, "')")
}

/// A default made for a sequence names it.
pub proof fn law_default_names_its_sequence(sequence: Seq<char>)
    ensures
        nextval_name(nextval_default(sequence)) == Some(sequence),
{
    reveal_strlit("nextval('");
    reveal_strlit("')");
    let default = nextval_default(sequence);
    assert("nextval('"@.len() == 9);
    assert("')"@.len() == 2);
    assert(default.take(9) =~= "nextval('"@);
    assert(default.skip(default.len() - 2) =~= seq!['\'', ')']);
    assert(default.subrange(9, default.len() - 2) =~= sequence);
}

/// Whether a column takes its values from a sequence.
pub open spec fn is_auto_increment(column: ColumnModel) -> bool {
    column.default matches Some(text) && nextval_name(text) is Some
}

/// The first column that takes its values from a sequence.
pub open spec fn auto_increment_column(columns: Seq<ColumnModel>) -> Option<ColumnModel>
    decreases columns.len(),
{
    if columns.len() == 0 {
        None
    } else if is_auto_increment(columns[0]) {
        Some(columns[0])
    } else {
        auto_increment_column(columns.skip(1))
    }
}

/// The first column that takes its values from a sequence.
pub fn mysql_auto_increment_column(schema: &TableSchema) -> (column: Option<&ColumnSchema>)
    ensures
        match column {
            Some(found) => auto_increment_column(schema@.columns) == Some(found@),
            None => auto_increment_column(schema@.columns) is None,
        },
{
    let ghost columns = schema@.columns;
    let mut i: usize = 0;
    assert(columns.skip(0) =~= columns);
    while i < schema.columns.len()
        invariant
            i <= schema.columns@.len(),
            columns == views(schema.columns@),
            auto_increment_column(columns) == auto_increment_column(columns.skip(i as int)),
            columns == schema@.columns,
        decreases schema.columns@.len() - i,
    {
        let column = &schema.columns[i];
        assert(columns.skip(i as int)[0] == column@);
        assert(columns.skip(i as int).skip(1) =~= columns.skip(i + 1));
        if let Some(text) = &column.default {
            if nextval_sequence_name(text.as_str()).is_some() {
                return Some(column);
            }
        }
        i += 1;
    }
    None
}

} // verus!
