//! What requests are read as: the filters that lead to rows, the bounds of scans, and the options
//! of bulk loads.
use vstd::prelude::*;

use crate::bytes::{
    bytes_less, law_next_prefix_bounds, lemma_bytes_less_total, lemma_bytes_less_transitive,
    next_prefix, starts_with,
};
use crate::error::Report;
use crate::lists::kept_where;
use crate::names::joined;
use crate::schema::{has_column, TableModel};
use crate::server::copy_text::{
    copy_options, default_options, with_csv_options, with_legacy_option, with_legacy_options,
    with_option, with_options, CopyInFormat, CopyOptionModel, CsvOptionModel, LegacyModel,
    OptionsModel,
};
use crate::server::dml_select::{
    equality_column, equality_filter, key_list_filter, listed_keys, lists_keys, ColumnKeyModel,
    FilterShape, ListedModel,
};
use crate::server::load_data::{
    bare_identifier, bare_parts, digits_end, last_mark, literal, load_clause, load_request,
    name_end, LoadModel, LoadProgress,
};
use crate::server::scans::{entry_range, PrefixModel, RangeModel};
use crate::text::{
    all_digits, bare_statement, begins, digits_value, is_digit, is_space, lower, split, trim,
    trim_end, trim_of, trim_start,
};
use crate::types::Datum;

verus! {

/// A filter without the brackets around it.
pub open spec fn bare_shape(shape: FilterShape) -> FilterShape
    decreases shape,
{
    match shape {
        FilterShape::Nested { inner } => bare_shape(*inner),
        _ => shape,
    }
}

proof fn lemma_equality_of_bare(shape: FilterShape, table: TableModel)
    ensures
        equality_column(shape, table) == equality_column(bare_shape(shape), table),
        lists_keys(shape, table) == lists_keys(bare_shape(shape), table),
        !(bare_shape(shape) is Nested),
    decreases shape,
{
    if let FilterShape::Nested { inner } = shape {
        lemma_equality_of_bare(*inner, table);
    }
}

/// A filter that says what a column of the table has to be, however many brackets are around it,
/// leads to the rows with that value in that column; one on something else leads nowhere.
pub proof fn law_equalities_lead_to_their_column(
    shape: FilterShape,
    table: TableModel,
    value: Result<Datum, Report>,
    name: String,
)
    requires
        bare_shape(shape) == (FilterShape::Equality { left: Ok(name) }),
    ensures
        equality_filter(Some(shape), table, value) == (if !has_column(table.columns, name@) {
            Ok::<Option<ColumnKeyModel>, Report>(None)
        } else {
            match value {
                Ok(key) => Ok(Some(ColumnKeyModel { column_name: name@, key })),
                Err(e) => Err(e),
            }
        }),
{
    lemma_equality_of_bare(shape, table);
}

/// Filters of other kinds say of no column what it has to be.
pub proof fn law_other_filters_lead_nowhere(
    shape: Option<FilterShape>,
    table: TableModel,
    value: Result<Datum, Report>,
    values: Seq<ListedModel>,
)
    ensures
        (shape matches Some(some) ==> !(bare_shape(some) is Equality)) ==> equality_filter(
            shape,
            table,
            value,
        ) == Ok::<Option<ColumnKeyModel>, Report>(None),
        (shape matches Some(some) ==> !(bare_shape(some) is InList)) ==> key_list_filter(
            shape,
            table,
            values,
        ) == Ok::<Option<Seq<Datum>>, Report>(None),
{
    if let Some(some) = shape {
        lemma_equality_of_bare(some, table);
    }
}

/// Whether a list holds a value.
pub open spec fn lists(values: Seq<ListedModel>, key: Datum) -> bool {
    exists|i: int| 0 <= i < values.len() && (#[trigger] values[i]).value == Ok::<Datum, Report>(key)
}

proof fn lemma_listed_keys(values: Seq<ListedModel>, key: Datum)
    requires
        listed_keys(values) is Ok,
        key != Datum::Null,
    ensures
        listed_keys(values)->Ok_0.0.contains(key) ==> lists(values, key),
        forall|i: int| 0 <= i < values.len() ==> (#[trigger] values[i]).value is Ok,
    decreases values.len(),
{
    if values.len() > 0 {
        let before = values.drop_last();
        lemma_listed_keys(before, key);
        assert forall|i: int| 0 <= i < values.len() implies (#[trigger] values[i]).value is Ok by {
            if i < before.len() {
                assert(before[i] == values[i]);
            }
        }
        let keys = listed_keys(values)->Ok_0.0;
        if keys.contains(key) {
            let old_keys = listed_keys(before)->Ok_0.0;
            if old_keys.contains(key) {
                let i = choose|i: int|
                    0 <= i < before.len() && (#[trigger] before[i]).value == Ok::<Datum, Report>(key);
                assert(values[i].value == Ok::<Datum, Report>(key));
            } else {
                let i = choose|i: int| 0 <= i < keys.len() && keys[i] == key;
                assert(i == old_keys.len()) by {
                    if i < old_keys.len() {
                        assert(old_keys[i] == key);
                    }
                }
                assert(values[values.len() - 1].value == Ok::<Datum, Report>(key));
            }
        }
    }
}

/// A filter for the primary key in a list leads to rows under keys of the list alone, and fails
/// only where a value of the list does; a filter for another column, or for what is not in the
/// list, leads to none.
pub proof fn law_lists_lead_to_their_keys(
    shape: FilterShape,
    table: TableModel,
    values: Seq<ListedModel>,
    name: String,
    negated: bool,
    key: Datum,
)
    requires
        bare_shape(shape) == (FilterShape::InList { target: Ok(name), negated }),
        key != Datum::Null,
    ensures
        negated || name@ != table.primary_key || !has_column(table.columns, name@)
            ==> key_list_filter(Some(shape), table, values) == Ok::<Option<Seq<Datum>>, Report>(None),
        !negated && name@ == table.primary_key && has_column(table.columns, name@) ==> {
            match key_list_filter(Some(shape), table, values) {
                Ok(Some(keys)) => keys.contains(key) ==> lists(values, key),
                Ok(None) => false,
                Err(_) => exists|i: int| 0 <= i < values.len() && (#[trigger] values[i]).value is Err,
            }
        },
{
    lemma_equality_of_bare(shape, table);
    if !negated && name@ == table.primary_key && has_column(table.columns, name@) {
        if listed_keys(values) is Ok {
            lemma_listed_keys(values, key);
        } else {
            lemma_refused_list(values);
        }
    }
}

proof fn lemma_refused_list(values: Seq<ListedModel>)
    requires
        listed_keys(values) is Err,
    ensures
        exists|i: int| 0 <= i < values.len() && (#[trigger] values[i]).value is Err,
    decreases values.len(),
{
    if values.len() > 0 {
        let before = values.drop_last();
        if listed_keys(before) is Err {
            lemma_refused_list(before);
            let i = choose|i: int| 0 <= i < before.len() && (#[trigger] before[i]).value is Err;
            assert(values[i].value is Err);
        } else {
            assert(values[values.len() - 1].value is Err);
        }
    }
}

/// Whether a scan comes to a key.
pub open spec fn is_scanned(range: Option<RangeModel>, key: Seq<u8>) -> bool {
    range matches Some(keys) && !bytes_less(key, keys.start) && (keys.end matches Some(end)
        ==> bytes_less(key, end))
}

/// The entries of an index between two bounds are those whose value is not below the lower one and
/// not above the upper one; a value that is a bound itself is among them where the bound says so.
pub proof fn law_entries_between_bounds_are_scanned(
    all: Seq<u8>,
    lower_end: Option<PrefixModel>,
    upper_end: Option<PrefixModel>,
    key: Seq<u8>,
)
    requires
        starts_with(key, all),
        next_prefix(all) is Some,
        lower_end matches Some(bound) ==> next_prefix(bound.prefix) is Some,
        upper_end matches Some(bound) ==> next_prefix(bound.prefix) is Some,
    ensures
        is_scanned(entry_range(all, lower_end, upper_end), key) == ((lower_end matches Some(bound)
            ==> !bytes_less(key, bound.prefix) && (bound.inclusive || !starts_with(
            key,
            bound.prefix,
        ))) && (upper_end matches Some(bound) ==> bytes_less(key, bound.prefix) || (bound.inclusive
            && starts_with(key, bound.prefix)))),
{
    law_next_prefix_bounds(all, key);
    if let Some(bound) = lower_end {
        law_next_prefix_bounds(bound.prefix, key);
        let next = next_prefix(bound.prefix)->0;
        law_next_prefix_bounds(bound.prefix, bound.prefix);
        assert(starts_with(bound.prefix, bound.prefix)) by {
            assert(bound.prefix.take(bound.prefix.len() as int) =~= bound.prefix);
        }
        if bytes_less(key, bound.prefix) {
            lemma_bytes_less_transitive(key, bound.prefix, next);
        }
    }
    if let Some(bound) = upper_end {
        law_next_prefix_bounds(bound.prefix, key);
        law_next_prefix_bounds(bound.prefix, bound.prefix);
        let next = next_prefix(bound.prefix)->0;
        assert(starts_with(bound.prefix, bound.prefix)) by {
            assert(bound.prefix.take(bound.prefix.len() as int) =~= bound.prefix);
        }
        if bytes_less(key, bound.prefix) {
            lemma_bytes_less_transitive(key, bound.prefix, next);
        }
    }
    let start = match lower_end {
        Some(bound) => if bound.inclusive {
            bound.prefix
        } else {
            next_prefix(bound.prefix)->0
        },
        None => all,
    };
    let end = match upper_end {
        Some(bound) => if bound.inclusive {
            next_prefix(bound.prefix)->0
        } else {
            bound.prefix
        },
        None => next_prefix(all)->0,
    };
    lemma_bytes_less_total(start, end);
    lemma_bytes_less_total(key, start);
    if !bytes_less(key, start) && bytes_less(key, end) && !bytes_less(start, end) {
        if key == start {
        } else {
            lemma_bytes_less_transitive(start, key, end);
        }
    }
}

/// The pieces of a text, with the mark between them again, are the text; no piece has the mark,
/// nor a character that the text has not.
pub proof fn law_pieces_make_the_text(text: Seq<char>, separator: char)
    ensures
        split(text, separator).len() > 0,
        joined(split(text, separator), seq![separator]) == text,
        forall|i: int, ch: char|
            0 <= i < split(text, separator).len() && (#[trigger] split(text, separator)[i].contains(
                ch,
            )) ==> ch != separator && text.contains(ch),
    decreases text.len(),
{
    let pieces = split(text, separator);
    if text.len() == 0 {
        assert(joined(pieces, seq![separator]) =~= text);
    } else {
        let before = split(text.drop_last(), separator);
        law_pieces_make_the_text(text.drop_last(), separator);
        let mark = seq![separator];
        assert(text =~= text.drop_last().push(text.last()));
        if text.last() == separator {
            assert(pieces.drop_last() =~= before);
            assert(joined(pieces, mark) =~= text.drop_last() + mark + Seq::<char>::empty());
        } else {
            assert(pieces.drop_last() =~= before.drop_last());
            assert(joined(pieces, mark) =~= joined(before, mark).push(text.last()));
        }
        assert forall|i: int, ch: char|
            0 <= i < pieces.len() && (#[trigger] pieces[i].contains(ch)) implies ch != separator
            && text.contains(ch) by {
            let rest = text.drop_last();
            let at = choose|at: int| 0 <= at < pieces[i].len() && pieces[i][at] == ch;
            if i < before.len() && pieces[i] == before[i] {
                assert(before[i].contains(ch));
                let k = choose|k: int| 0 <= k < rest.len() && rest[k] == ch;
                assert(text[k] == ch);
            } else if text.last() != separator {
                assert(pieces[i] == before[i].push(text.last()));
                if at < before[i].len() {
                    assert(before[i][at] == ch);
                    assert(before[i].contains(ch));
                    let k = choose|k: int| 0 <= k < rest.len() && rest[k] == ch;
                    assert(text[k] == ch);
                } else {
                    assert(text[text.len() - 1] == ch);
                }
            }
        }
    }
}

proof fn lemma_split_behind(front: Seq<char>, separator: char, piece: Seq<char>)
    requires
        !piece.contains(separator),
    ensures
        split(front.push(separator) + piece, separator) == split(front, separator).push(piece),
    decreases piece.len(),
{
    let text = front.push(separator) + piece;
    if piece.len() == 0 {
        assert(text =~= front.push(separator));
        assert(text.drop_last() =~= front);
        assert(piece =~= Seq::<char>::empty());
    } else {
        let rest = piece.drop_last();
        assert(!rest.contains(separator)) by {
            if rest.contains(separator) {
                let k = choose|k: int| 0 <= k < rest.len() && rest[k] == separator;
                assert(piece[k] == separator);
            }
        }
        lemma_split_behind(front, separator, rest);
        assert(text.drop_last() =~= front.push(separator) + rest);
        assert(text.last() == piece[piece.len() - 1]);
        assert(piece =~= rest.push(piece.last()));
        assert(split(text, separator) =~= split(front, separator).push(piece));
    }
}

proof fn lemma_split_alone(piece: Seq<char>, separator: char)
    requires
        !piece.contains(separator),
    ensures
        split(piece, separator) == seq![piece],
    decreases piece.len(),
{
    if piece.len() == 0 {
        assert(piece =~= Seq::<char>::empty());
    } else {
        let rest = piece.drop_last();
        assert(!rest.contains(separator)) by {
            if rest.contains(separator) {
                let k = choose|k: int| 0 <= k < rest.len() && rest[k] == separator;
                assert(piece[k] == separator);
            }
        }
        lemma_split_alone(rest, separator);
        assert(piece.last() == piece[piece.len() - 1]);
        assert(piece =~= rest.push(piece.last()));
        assert(split(piece, separator) =~= seq![piece]);
    }
}

/// Texts without a mark come back when they are joined by it and taken apart again.
pub proof fn law_joined_texts_come_apart(names: Seq<Seq<char>>, separator: char)
    requires
        names.len() > 0,
        forall|i: int| 0 <= i < names.len() ==> !(#[trigger] names[i]).contains(separator),
    ensures
        split(joined(names, seq![separator]), separator) == names,
    decreases names.len(),
{
    let mark = seq![separator];
    if names.len() == 1 {
        lemma_split_alone(names[0], separator);
        assert(names =~= seq![names[0]]);
    } else {
        let before = names.drop_last();
        assert forall|i: int| 0 <= i < before.len() implies !(#[trigger] before[i]).contains(
            separator,
        ) by {
            assert(before[i] == names[i]);
        }
        law_joined_texts_come_apart(before, separator);
        let front = joined(before, mark);
        assert(names[names.len() - 1] == names.last());
        lemma_split_behind(front, separator, names.last());
        assert(front.push(separator) + names.last() =~= joined(names, mark));
        assert(names =~= before.push(names.last()));
    }
}

proof fn lemma_options_in_order(
    options: OptionsModel,
    more: Seq<CopyOptionModel>,
    option: CopyOptionModel,
)
    ensures
        with_options(options, more.push(option)) == match with_options(options, more) {
            Ok(next) => with_option(next, option),
            Err(e) => Err(e),
        },
    decreases more.len(),
{
    let all = more.push(option);
    reveal_with_fuel(with_options, 2);
    if more.len() == 0 {
        assert(all.skip(1) =~= Seq::<CopyOptionModel>::empty());
    } else {
        assert(all.skip(1) =~= more.skip(1).push(option));
        assert(all[0] == more[0]);
        if let Ok(next) = with_option(options, more[0]) {
            lemma_options_in_order(next, more.skip(1), option);
        }
    }
}

/// Options count in the order they are written in, so that the last word stands: whatever was said
/// before, the mark between fields is the one that the last option names.
pub proof fn law_the_last_option_stands(
    options: OptionsModel,
    more: Seq<CopyOptionModel>,
    mark: char,
    null: Seq<char>,
    header: bool,
)
    requires
        with_options(options, more) is Ok,
    ensures
        with_options(options, more.push(CopyOptionModel::Delimiter { delimiter: mark })) matches Ok(
            next,
        ) && next.delimiter == mark,
        with_options(options, more.push(CopyOptionModel::Null { null })) matches Ok(next)
            && next.null == null,
        with_options(options, more.push(CopyOptionModel::Header { header })) matches Ok(next)
            && next.header == header,
        with_options(options, more.push(CopyOptionModel::Quote { quote: mark })) matches Ok(next)
            && next.quote == mark,
        with_options(options, more.push(CopyOptionModel::Escape { escape: mark })) matches Ok(next)
            && next.escape == mark,
        with_options(options, more.push(CopyOptionModel::Freeze)) == with_options(options, more),
        with_options(options, more.push(CopyOptionModel::Force)) is Err,
{
    lemma_options_in_order(options, more, CopyOptionModel::Delimiter { delimiter: mark });
    lemma_options_in_order(options, more, CopyOptionModel::Null { null });
    lemma_options_in_order(options, more, CopyOptionModel::Header { header });
    lemma_options_in_order(options, more, CopyOptionModel::Quote { quote: mark });
    lemma_options_in_order(options, more, CopyOptionModel::Escape { escape: mark });
    lemma_options_in_order(options, more, CopyOptionModel::Freeze);
    lemma_options_in_order(options, more, CopyOptionModel::Force);
}

/// Options in their old form do what the options of the same name do; `CSV` puts commas between
/// fields, and lets nothing at all stand for a null unless another word for it was given.
pub proof fn law_old_options_do_the_same(
    options: OptionsModel,
    mark: char,
    null: Seq<char>,
    more: Seq<CsvOptionModel>,
)
    ensures
        with_legacy_option(options, LegacyModel::Delimiter { delimiter: mark }) == with_option(
            options,
            CopyOptionModel::Delimiter { delimiter: mark },
        ),
        with_legacy_option(options, LegacyModel::Null { null }) == with_option(
            options,
            CopyOptionModel::Null { null },
        ),
        with_legacy_option(options, LegacyModel::Binary) is Err,
        with_legacy_option(options, LegacyModel::Other) is Err,
        with_legacy_option(options, LegacyModel::Csv { options: seq![] }) == Ok::<
            OptionsModel,
            Report,
        >(
            OptionsModel {
                format: CopyInFormat::Csv,
                delimiter: ',',
                null: if options.null == seq!['\\', 'N'] {
                    seq![]
                } else {
                    options.null
                },
                ..options
            },
        ),
        with_csv_options(options, seq![CsvOptionModel::Header] + more) == with_csv_options(
            OptionsModel { header: true, ..options },
            more,
        ),
        with_csv_options(options, seq![CsvOptionModel::Quote { quote: mark }] + more)
            == with_csv_options(OptionsModel { quote: mark, ..options }, more),
        with_csv_options(options, seq![CsvOptionModel::Escape { escape: mark }] + more)
            == with_csv_options(OptionsModel { escape: mark, ..options }, more),
        with_csv_options(options, seq![CsvOptionModel::Force] + more) is Err,
{
    reveal_strlit("\\N");
    assert("\\N"@ =~= seq!['\\', 'N']);
    assert((seq![CsvOptionModel::Header] + more).skip(1) =~= more);
    assert((seq![CsvOptionModel::Quote { quote: mark }] + more).skip(1) =~= more);
    assert((seq![CsvOptionModel::Escape { escape: mark }] + more).skip(1) =~= more);
}

/// Without options, lines have tabs between their fields and `\N` for a null, and the first one is
/// a row like the others. What both forms of options come to is what is used, unless the mark
/// between fields is more than a byte.
pub proof fn law_options_come_to_how_lines_are_read(
    options: Seq<CopyOptionModel>,
    legacy: Seq<LegacyModel>,
)
    ensures
        copy_options(seq![], seq![]) == Ok::<OptionsModel, Report>(default_options()),
        default_options().format is Text,
        default_options().delimiter == '\t',
        default_options().null == seq!['\\', 'N'],
        !default_options().header,
        default_options().quote == '"' && default_options().escape == '"',
        copy_options(options, legacy) matches Ok(found) ==> {
            &&& with_options(default_options(), options) matches Ok(first) && with_legacy_options(
                first,
                legacy,
            ) == Ok::<OptionsModel, Report>(found)
            &&& (found.delimiter as u32) < 128
        },
        copy_options(options, legacy) is Err ==> match with_options(default_options(), options) {
            Err(_) => true,
            Ok(first) => match with_legacy_options(first, legacy) {
                Err(_) => true,
                Ok(found) => (found.delimiter as u32) >= 128,
            },
        },
{
    reveal_strlit("\\N");
    assert("\\N"@ =~= seq!['\\', 'N']);
    assert(('\t' as u32) < 128);
}

/// The clause of a load that says what stands between fields says just that.
pub proof fn law_field_marks_are_taken(
    before: LoadProgress,
    value: Seq<char>,
    behind: Seq<char>,
)
    requires
        before.rest.len() > 0,
        before.rest[0] != '(',
        (begins(lower(before.rest), "fields terminated by"@) && literal(
            trim_start(before.rest.skip(20)),
        ) == Some((value, behind))) || (!begins(lower(before.rest), "fields terminated by"@)
            && begins(lower(before.rest), "columns terminated by"@) && literal(
            trim_start(before.rest.skip(21)),
        ) == Some((value, behind))),
    ensures
        load_clause(before) == (if value.len() == 1 {
            Ok::<LoadProgress, Report>(
                LoadProgress {
                    rest: trim_start(behind),
                    columns: before.columns,
                    options: OptionsModel { delimiter: value[0], ..before.options },
                },
            )
        } else {
            Err(load_clause(before)->Err_0)
        }),
{
    reveal_strlit("fields terminated by");
    reveal_strlit("columns terminated by");
    assert("fields terminated by"@.len() == 20 && "columns terminated by"@.len() == 21);
}

proof fn lemma_digits_end(digits: Seq<char>, behind: Seq<char>)
    requires
        all_digits(digits),
        behind.len() > 0 ==> !is_digit(behind[0]),
    ensures
        digits_end(digits + behind) == digits.len(),
    decreases digits.len(),
{
    let text = digits + behind;
    if digits.len() > 0 {
        assert(is_digit(digits[0]));
        let rest = digits.skip(1);
        assert forall|i: int| 0 <= i < rest.len() implies is_digit(#[trigger] rest[i]) by {
            assert(is_digit(digits[i + 1]));
        }
        lemma_digits_end(rest, behind);
        assert(text.skip(1) =~= rest + behind);
    } else {
        assert(text =~= behind);
    }
}

/// A load passes over no line, or over the first one, as it is told; over more it refuses to.
pub proof fn law_first_lines_are_passed_over(
    before: LoadProgress,
    digits: Seq<char>,
    behind: Seq<char>,
)
    requires
        before.rest.len() > 0,
        before.rest[0] != '(',
        begins(lower(before.rest), "ignore "@),
        !begins(lower(before.rest), "fields terminated by"@),
        !begins(lower(before.rest), "columns terminated by"@),
        !begins(lower(before.rest), "lines terminated by"@),
        trim_start(before.rest.skip(7)) == digits + behind,
        digits.len() > 0,
        all_digits(digits),
        digits_value(digits) <= usize::MAX,
        behind.len() > 0 ==> !is_digit(behind[0]),
        begins(lower(trim_start(behind)), "lines"@),
    ensures
        digits_value(digits) <= 1 ==> load_clause(before) == Ok::<LoadProgress, Report>(
            LoadProgress {
                rest: trim_start(trim_start(behind).skip(5)),
                columns: before.columns,
                options: OptionsModel { header: digits_value(digits) == 1, ..before.options },
            },
        ),
        digits_value(digits) > 1 ==> load_clause(before) is Err,
{
    reveal_strlit("ignore ");
    reveal_strlit("lines");
    assert("ignore "@.len() == 7 && "lines"@.len() == 5);
    lemma_digits_end(digits, behind);
    let after = digits + behind;
    assert(after.take(digits.len() as int) =~= digits);
    assert(after.skip(digits.len() as int) =~= behind);
}

proof fn lemma_last_mark(list: Seq<char>, mark: char, behind: Seq<char>)
    requires
        !behind.contains(mark),
    ensures
        last_mark(list + seq![mark] + behind, mark) == Some(list.len() as int),
    decreases behind.len(),
{
    let text = list + seq![mark] + behind;
    if behind.len() == 0 {
        assert(text.last() == mark);
    } else {
        let rest = behind.drop_last();
        assert(!rest.contains(mark)) by {
            if rest.contains(mark) {
                let k = choose|k: int| 0 <= k < rest.len() && rest[k] == mark;
                assert(behind[k] == mark);
            }
        }
        lemma_last_mark(list, mark, rest);
        assert(text.last() == behind[behind.len() - 1]);
        assert(text.drop_last() =~= list + seq![mark] + rest);
    }
}

/// Whether a name can be written without quotes or spaces around it.
pub open spec fn is_bare(name: Seq<char>) -> bool {
    name.len() > 0 && forall|i: int|
        0 <= i < name.len() ==> !is_space(#[trigger] name[i]) && name[i] != '`' && name[i] != '"'
            && name[i] != ',' && name[i] != '('
}

pub(crate) proof fn lemma_bare(name: Seq<char>)
    requires
        is_bare(name),
    ensures
        bare_identifier(name) == name,
        trim(name) == name,
        !name.contains(','),
{
    assert(!is_space(name[0]) && !is_space(name[name.len() - 1]));
    assert(trim_start(name) == name);
    assert(name.last() == name[name.len() - 1]);
    assert(trim_end(name) == name);
    assert(trim_of(name, '`') == name);
    assert(trim_of(name, '"') == name);
    if name.contains(',') {
        let k = choose|k: int| 0 <= k < name.len() && name[k] == ',';
    }
}

proof fn lemma_all_kept(names: Seq<Seq<char>>)
    requires
        forall|i: int| 0 <= i < names.len() ==> (#[trigger] names[i]).len() > 0,
    ensures
        kept_where(names, |name: Seq<char>| name.len() > 0) == names,
    decreases names.len(),
{
    if names.len() > 0 {
        let before = names.drop_last();
        assert forall|i: int| 0 <= i < before.len() implies (#[trigger] before[i]).len() > 0 by {
            assert(before[i] == names[i]);
        }
        lemma_all_kept(before);
        assert(names[names.len() - 1].len() > 0);
        assert(names =~= before.push(names.last()));
    }
}

/// The columns that a load lists are those that it fills, in their order.
pub proof fn law_listed_columns_are_filled(
    before: LoadProgress,
    names: Seq<Seq<char>>,
    behind: Seq<char>,
)
    requires
        names.len() > 0,
        forall|i: int| 0 <= i < names.len() ==> is_bare(#[trigger] names[i]),
        !behind.contains(')'),
        before.rest == seq!['('] + joined(names, seq![',']) + seq![')'] + behind,
    ensures
        load_clause(before) == Ok::<LoadProgress, Report>(
            LoadProgress {
                rest: trim_start(behind),
                columns: names,
                options: before.options,
            },
        ),
{
    let inner = joined(names, seq![',']);
    let list = before.rest.skip(1);
    assert(list =~= inner + seq![')'] + behind);
    lemma_last_mark(inner, ')', behind);
    assert(list.take(inner.len() as int) =~= inner);
    assert(list.skip(inner.len() as int + 1) =~= behind);
    assert forall|i: int| 0 <= i < names.len() implies !(#[trigger] names[i]).contains(',') by {
        lemma_bare(names[i]);
    }
    law_joined_texts_come_apart(names, ',');
    let pieces = split(inner, ',').map_values(|piece: Seq<char>| bare_identifier(trim(piece)));
    assert(pieces =~= names) by {
        assert forall|i: int| 0 <= i < names.len() implies #[trigger] pieces[i] == names[i] by {
            lemma_bare(names[i]);
        }
    }
    assert forall|i: int| 0 <= i < names.len() implies (#[trigger] names[i]).len() > 0 by {
        assert(is_bare(names[i]));
    }
    lemma_all_kept(names);
}

proof fn lemma_name_end(name: Seq<char>, behind: Seq<char>)
    requires
        forall|i: int| 0 <= i < name.len() ==> !is_space(#[trigger] name[i]) && name[i] != '(',
        behind.len() > 0 ==> is_space(behind[0]) || behind[0] == '(',
    ensures
        name_end(name + behind) == name.len(),
    decreases name.len(),
{
    let text = name + behind;
    if name.len() > 0 {
        let rest = name.skip(1);
        assert(text[0] == name[0]);
        assert forall|i: int| 0 <= i < rest.len() implies !is_space(#[trigger] rest[i]) && rest[i]
            != '(' by {
            assert(rest[i] == name[i + 1]);
        }
        lemma_name_end(rest, behind);
        assert(text.skip(1) =~= rest + behind);
    } else {
        assert(text =~= behind);
    }
}

proof fn lemma_bare_parts(name: Seq<char>)
    requires
        is_bare(name),
    ensures
        joined(bare_parts(name), "."@) == name,
{
    reveal_strlit(".");
    assert("."@ =~= seq!['.']);
    law_pieces_make_the_text(name, '.');
    let pieces = split(name, '.');
    assert(bare_parts(name) =~= pieces) by {
        assert forall|i: int| 0 <= i < pieces.len() implies bare_identifier(#[trigger] pieces[i])
            == pieces[i] by {
            let piece = pieces[i];
            if piece.len() > 0 {
                assert(piece.contains(piece[0]) && piece.contains(piece[piece.len() - 1]));
                let a = choose|k: int| 0 <= k < name.len() && name[k] == piece[0];
                let b = choose|k: int| 0 <= k < name.len() && name[k] == piece[piece.len() - 1];
                assert(name[a] != '`' && name[a] != '"');
                assert(name[b] != '`' && name[b] != '"');
                assert(piece.last() == piece[piece.len() - 1]);
            }
            assert(trim_of(piece, '`') == piece);
            assert(trim_of(piece, '"') == piece);
        }
    }
}

/// A load reads the file that it names into the table that it names. Where it says no more, it
/// fills every column, from lines with tabs between their fields.
pub proof fn law_loads_name_their_file_and_table(
    query: Seq<char>,
    filename: Seq<char>,
    behind_file: Seq<char>,
    table_name: Seq<char>,
    behind: Seq<char>,
)
    requires
        begins(lower(bare_statement(query)), "load data local infile"@),
        literal(trim_start(bare_statement(query).skip(22))) == Some((filename, behind_file)),
        begins(lower(trim_start(behind_file)), "into table"@),
        trim_start(trim_start(behind_file).skip(10)) == table_name + behind,
        is_bare(table_name),
        behind.len() > 0 ==> is_space(behind[0]) || behind[0] == '(',
    ensures
        load_request(query) matches Ok(request) ==> request.filename == filename
            && request.table_name == table_name,
        trim_start(behind).len() == 0 ==> load_request(query) == Ok::<LoadModel, Report>(
            LoadModel { filename, table_name, columns: seq![], options: default_options() },
        ),
{
    reveal_strlit("load data local infile");
    reveal_strlit("into table");
    assert("load data local infile"@.len() == 22 && "into table"@.len() == 10);
    lemma_name_end(table_name, behind);
    let text = table_name + behind;
    assert(text.take(table_name.len() as int) =~= table_name);
    assert(text.skip(table_name.len() as int) =~= behind);
    lemma_bare_parts(table_name);
}

} // verus!
