//! `LOAD DATA LOCAL INFILE`: what the statement asks for.
use vstd::prelude::*;

use crate::error::{report, unsupported, unsupported_report, user_error, Report, UserError};
use crate::lists::kept_where;
use crate::names::{join_names, joined};
use crate::schema::{option_view, seen, views};
use crate::server::copy_text::{default_options, CopyInOptions, OptionsModel};
use crate::text::{
    bare_chars, bare_statement, begins, begins_with, chars_of, digits_number, is_digit, is_space,
    is_space_char, lower, lower_text, parse_digits, part, same_text, split, split_text, string_of,
    texts, three_texts, trim, trim_chars, trim_mark, trim_of, trim_start, trim_start_chars,
};

verus! {

/// What `LOAD DATA LOCAL` asks for.
#[derive(Debug)]
pub struct MySqlLoadDataLocalSpec {
    pub filename: String,
    pub table_name: String,
    pub columns: Vec<String>,
    pub options: CopyInOptions,
}

/// What a [`MySqlLoadDataLocalSpec`] says.
pub struct LoadModel {
    pub filename: Seq<char>,
    pub table_name: Seq<char>,
    pub columns: Seq<Seq<char>>,
    pub options: OptionsModel,
}

impl View for MySqlLoadDataLocalSpec {
    type V = LoadModel;

    open spec fn view(&self) -> LoadModel {
        LoadModel {
            filename: self.filename@,
            table_name: self.table_name@,
            columns: views(self.columns@),
            options: self.options@,
        }
    }
}

/// What comes behind a word that a text starts with, in capitals or not.
pub open spec fn behind_word(text: Seq<char>, word: Seq<char>) -> Option<Seq<char>> {
    if begins(lower(text), word) {
        Some(trim_start(text.skip(word.len() as int)))
    } else {
        None
    }
}

fn after_word<'a>(text: &'a [char], word: &str) -> (rest: Option<&'a [char]>)
    ensures
        match rest {
            Some(after) => behind_word(text@, word@) == Some(after@),
            None => behind_word(text@, word@) is None,
        },
{
    let small = lower_text(string_of(text).as_str());
    let chars = chars_of(small.as_str());
    if begins_with(chars.as_slice(), word) {
        let length: usize = chars_of(word).len();
        assert(text@.subrange(length as int, text@.len() as int) =~= text@.skip(length as int));
        Some(trim_start_chars(part(text, length, text.len())))
    } else {
        None
    }
}

/// The character that stands behind a backslash.
pub open spec fn escaped(ch: char) -> char {
    if ch == 'n' {
        '\n'
    } else if ch == 't' {
        '\t'
    } else if ch == 'r' {
        '\r'
    } else if ch == '0' {
        '\0'
    } else {
        ch
    }
}

fn escaped_char(ch: char) -> (meant: char)
    ensures
        meant == escaped(ch),
{
    if ch == 'n' {
        '\n'
    } else if ch == 't' {
        '\t'
    } else if ch == 'r' {
        '\r'
    } else if ch == '0' {
        '\0'
    } else {
        ch
    }
}

/// The rest of a literal from some place on, `value` being what it has so far, with the place
/// behind its closing quote.
pub open spec fn literal_rest(text: Seq<char>, at: int, quote: char, value: Seq<char>) -> Option<
    (Seq<char>, int),
>
    decreases text.len() - at,
{
    if at >= text.len() {
        None
    } else if text[at] == '\\' && at + 1 < text.len() {
        literal_rest(text, at + 2, quote, value.push(escaped(text[at + 1])))
    } else if text[at] == quote {
        if at + 1 < text.len() && text[at + 1] == quote {
            literal_rest(text, at + 2, quote, value.push(quote))
        } else {
            Some((value, at + 1))
        }
    } else {
        literal_rest(text, at + 1, quote, value.push(text[at]))
    }
}

/// The literal that a text starts with, and what comes behind it.
pub open spec fn literal(text: Seq<char>) -> Option<(Seq<char>, Seq<char>)> {
    if text.len() > 0 && (text[0] == '\'' || text[0] == '"') {
        match literal_rest(text, 1, text[0], seq![]) {
            Some((value, end)) => Some((value, text.skip(end))),
            None => None,
        }
    } else {
        None
    }
}

/// A literal ends inside the text.
proof fn lemma_literal_ends(text: Seq<char>, at: int, quote: char, value: Seq<char>)
    requires
        0 <= at,
    ensures
        match literal_rest(text, at, quote, value) {
            Some((_, end)) => at < end <= text.len(),
            None => true,
        },
    decreases text.len() - at,
{
    if at >= text.len() {
    } else if text[at] == '\\' && at + 1 < text.len() {
        lemma_literal_ends(text, at + 2, quote, value.push(escaped(text[at + 1])));
    } else if text[at] == quote {
        if at + 1 < text.len() && text[at + 1] == quote {
            lemma_literal_ends(text, at + 2, quote, value.push(quote));
        }
    } else {
        lemma_literal_ends(text, at + 1, quote, value.push(text[at]));
    }
}

fn parse_mysql_quoted_literal(text: &[char]) -> (found: Option<(String, &[char])>)
    ensures
        match found {
            Some((value, rest)) => literal(text@) == Some((value@, rest@)),
            None => literal(text@) is None,
        },
{
    if text.len() == 0 {
        return None;
    }
    let quote = text[0];
    if quote != '\'' && quote != '"' {
        return None;
    }
    let mut value = String::new();
    let mut at: usize = 1;
    let end: usize = text.len();
    assert(value@ =~= Seq::<char>::empty());
    while at < end
        invariant
            1 <= at,
            end == text@.len(),
            end > 0,
            quote == text@[0],
            quote == '\'' || quote == '"',
            literal_rest(text@, 1, quote, seq![]) == literal_rest(
                text@,
                at as int,
                quote,
                value@,
            ),
        decreases end - at,
    {
        let ch = text[at];
        if ch == '\\' && at < end - 1 {
            value.push(escaped_char(text[at + 1]));
            at += 2;
        } else if ch == quote {
            if at < end - 1 && text[at + 1] == quote {
                value.push(quote);
                at += 2;
            } else {
                assert(text@.subrange(at + 1, end as int) =~= text@.skip(at + 1));
                return Some((value, part(text, at + 1, end)));
            }
        } else {
            value.push(ch);
            at += 1;
        }
    }
    None
}

/// A name without quotes around it.
pub open spec fn bare_identifier(text: Seq<char>) -> Seq<char> {
    trim_of(trim_of(text, '`'), '"')
}

fn strip_mysql_identifier_token(text: &[char]) -> (name: &[char])
    ensures
        name@ == bare_identifier(text@),
{
    trim_mark(trim_mark(text, '`'), '"')
}

/// Where the name that a text starts with ends.
pub open spec fn name_end(text: Seq<char>) -> nat
    decreases text.len(),
{
    if text.len() == 0 || is_space(text[0]) || text[0] == '(' {
        0
    } else {
        1 + name_end(text.skip(1))
    }
}

/// The parts of a name, without quotes around them.
pub open spec fn bare_parts(text: Seq<char>) -> Seq<Seq<char>> {
    split(text, '.').map_values(|piece: Seq<char>| bare_identifier(piece))
}

/// The name that a text starts with, and what comes behind it.
pub open spec fn leading_name(text: Seq<char>) -> Option<(Seq<char>, Seq<char>)> {
    let end = name_end(text) as int;
    if end == 0 {
        None
    } else {
        Some((joined(bare_parts(text.take(end)), "."@), text.skip(end)))
    }
}

fn parse_mysql_identifier_token(text: &[char]) -> (found: Option<(String, &[char])>)
    ensures
        match found {
            Some((name, rest)) => leading_name(text@) == Some((name@, rest@)),
            None => leading_name(text@) is None,
        },
{
    let mut end: usize = 0;
    assert(text@.skip(0) =~= text@);
    while end < text.len() && !is_space_char(text[end]) && text[end] != '('
        invariant
            end <= text@.len(),
            name_end(text@) == end + name_end(text@.skip(end as int)),
        decreases text@.len() - end,
    {
        assert(text@.skip(end as int).skip(1) =~= text@.skip(end + 1));
        end += 1;
    }
    if end == 0 {
        return None;
    }
    let whole = string_of(part(text, 0, end));
    assert(whole@ =~= text@.take(end as int));
    let pieces = split_text(whole.as_str(), '.');
    let ghost names = bare_parts(whole@);
    let mut parts: Vec<String> = Vec::new();
    let mut i: usize = 0;
    while i < pieces.len()
        invariant
            i <= pieces@.len(),
            texts(pieces@) == split(whole@, '.'),
            names == bare_parts(whole@),
            parts@.len() == i,
            forall|k: int| 0 <= k < i ==> (#[trigger] parts@[k])@ == names[k],
        decreases pieces@.len() - i,
    {
        assert(texts(pieces@)[i as int] == pieces@[i as int]@);
        let chars = chars_of(pieces[i].as_str());
        parts.push(string_of(strip_mysql_identifier_token(chars.as_slice())));
        i += 1;
    }
    assert(texts(pieces@).len() == names.len());
    assert(views(parts@) =~= names);
    assert(text@.subrange(end as int, text@.len() as int) =~= text@.skip(end as int));
    Some((join_names(&parts, "."), part(text, end, text.len())))
}

/// The place of the last occurrence of a mark.
pub open spec fn last_mark(text: Seq<char>, mark: char) -> Option<int>
    decreases text.len(),
{
    if text.len() == 0 {
        None
    } else if text.last() == mark {
        Some(text.len() - 1)
    } else {
        last_mark(text.drop_last(), mark)
    }
}

fn find_last_mark(text: &[char], mark: char) -> (place: Option<usize>)
    ensures
        match place {
            Some(n) => last_mark(text@, mark) == Some(n as int) && n < text@.len(),
            None => last_mark(text@, mark) is None,
        },
{
    let mut end: usize = text.len();
    assert(text@.take(end as int) =~= text@);
    while end > 0
        invariant
            end <= text@.len(),
            last_mark(text@, mark) == last_mark(text@.take(end as int), mark),
        decreases end,
    {
        if text[end - 1] == mark {
            return Some(end - 1);
        }
        assert(text@.take(end as int).drop_last() =~= text@.take(end - 1));
        end -= 1;
    }
    None
}

/// The columns that a text lists, with commas between them.
pub open spec fn listed_columns(text: Seq<char>) -> Seq<Seq<char>> {
    kept_where(
        split(text, ',').map_values(|piece: Seq<char>| bare_identifier(trim(piece))),
        |name: Seq<char>| name.len() > 0,
    )
}

fn columns_in(text: &[char]) -> (columns: Vec<String>)
    ensures
        views(columns@) == listed_columns(text@),
{
    let whole = string_of(text);
    let pieces = split_text(whole.as_str(), ',');
    let ghost names = split(text@, ',').map_values(
        |piece: Seq<char>| bare_identifier(trim(piece)),
    );
    let ghost keep = |name: Seq<char>| name.len() > 0;
    let mut columns: Vec<String> = Vec::new();
    let mut i: usize = 0;
    assert(names.take(0) =~= Seq::<Seq<char>>::empty());
    assert(views(columns@) =~= Seq::<Seq<char>>::empty());
    while i < pieces.len()
        invariant
            i <= pieces@.len(),
            texts(pieces@) == split(text@, ','),
            names == split(text@, ',').map_values(
                |piece: Seq<char>| bare_identifier(trim(piece)),
            ),
            keep == (|name: Seq<char>| name.len() > 0),
            views(columns@) == kept_where(names.take(i as int), keep),
        decreases pieces@.len() - i,
    {
        assert(names.take(i + 1).drop_last() =~= names.take(i as int));
        assert(texts(pieces@)[i as int] == pieces@[i as int]@);
        let chars = chars_of(pieces[i].as_str());
        let name = strip_mysql_identifier_token(trim_chars(chars.as_slice()));
        assert(names.take(i + 1).last() == name@);
        if name.len() > 0 {
            let ghost before = views(columns@);
            let ghost added = name@;
            columns.push(string_of(name));
            assert(views(columns@) =~= before.push(added));
        }
        i += 1;
    }
    assert(texts(pieces@).len() == names.len());
    assert(names.take(i as int) =~= names);
    columns
}

/// How many digits a text starts with.
pub open spec fn digits_end(text: Seq<char>) -> nat
    decreases text.len(),
{
    if text.len() > 0 && is_digit(text[0]) {
        1 + digits_end(text.skip(1))
    } else {
        0
    }
}

/// What the clauses that were read so far came to, and what is left to read.
pub struct LoadProgress {
    pub rest: Seq<char>,
    pub columns: Seq<Seq<char>>,
    pub options: OptionsModel,
}

/// What comes behind the words that tell how fields end.
pub open spec fn behind_field_words(text: Seq<char>) -> Option<Seq<char>> {
    match behind_word(text, "fields terminated by"@) {
        Some(rest) => Some(rest),
        None => behind_word(text, "columns terminated by"@),
    }
}

/// What the next clause comes to.
pub open spec fn load_clause(before: LoadProgress) -> Result<LoadProgress, Report> {
    let text = before.rest;
    if text[0] == '(' {
        let list = text.skip(1);
        match last_mark(list, ')') {
            None => Err(report("42000"@, "LOAD DATA column list is unterminated"@)),
            Some(end) => Ok(
                LoadProgress {
                    rest: trim_start(list.skip(end + 1)),
                    columns: listed_columns(list.take(end)),
                    ..before
                },
            ),
        }
    } else if behind_field_words(text) is Some {
        match literal(behind_field_words(text)->0) {
            None => Err(report("42000"@, "FIELDS TERMINATED BY requires a string literal"@)),
            Some((value, rest)) => if value.len() == 1 {
                Ok(
                    LoadProgress {
                        rest: trim_start(rest),
                        options: OptionsModel { delimiter: value[0], ..before.options },
                        ..before
                    },
                )
            } else {
                Err(report("42000"@, "FIELDS TERMINATED BY requires a single character"@))
            },
        }
    } else if behind_word(text, "lines terminated by"@) is Some {
        match literal(behind_word(text, "lines terminated by"@)->0) {
            None => Err(report("42000"@, "LINES TERMINATED BY requires a string literal"@)),
            Some((value, rest)) => if value == "\n"@ {
                Ok(LoadProgress { rest: trim_start(rest), ..before })
            } else {
                Err(
                    unsupported_report(
                        "LOAD DATA currently supports only LINES TERMINATED BY '\\n'"@,
                    ),
                )
            },
        }
    } else if behind_word(text, "ignore "@) is Some {
        let after = behind_word(text, "ignore "@)->0;
        let digits = after.take(digits_end(after) as int);
        let count = match digits_number(digits, usize::MAX as nat) {
            Some(n) => n,
            None => 0,
        };
        match behind_word(trim_start(after.skip(digits_end(after) as int)), "lines"@) {
            None => Err(report("42000"@, "IGNORE requires LINES"@)),
            Some(rest) => if count > 1 {
                Err(unsupported_report("LOAD DATA currently supports only IGNORE 1 LINES"@))
            } else {
                Ok(
                    LoadProgress {
                        rest,
                        options: OptionsModel { header: count == 1, ..before.options },
                        ..before
                    },
                )
            },
        }
    } else {
        Err(
            unsupported_report(
                "unsupported LOAD DATA clause near '"@ + text.take(
                    if text.len() < 48 {
                        text.len() as int
                    } else {
                        48
                    },
                ) + "'"@,
            ),
        )
    }
}

/// What the clauses come to.
pub open spec fn load_clauses(before: LoadProgress) -> Result<LoadProgress, Report>
    decreases before.rest.len(),
{
    if before.rest.len() == 0 {
        Ok(before)
    } else {
        match load_clause(before) {
            Err(e) => Err(e),
            Ok(next) => if next.rest.len() < before.rest.len() {
                load_clauses(next)
            } else {
                Ok(next)
            },
        }
    }
}

proof fn lemma_trim_start_len(text: Seq<char>)
    ensures
        trim_start(text).len() <= text.len(),
    decreases text.len(),
{
    if text.len() > 0 && is_space(text[0]) {
        lemma_trim_start_len(text.skip(1));
    }
}

proof fn lemma_behind_word(text: Seq<char>, word: Seq<char>)
    ensures
        behind_word(text, word) matches Some(rest) ==> rest.len() + word.len() <= text.len(),
{
    if begins(lower(text), word) {
        assert(lower(text).len() == text.len());
        lemma_trim_start_len(text.skip(word.len() as int));
    }
}

proof fn lemma_literal_len(text: Seq<char>)
    ensures
        literal(text) matches Some((_, rest)) ==> rest.len() < text.len(),
{
    if text.len() > 0 {
        lemma_literal_ends(text, 1, text[0], seq![]);
    }
}

proof fn lemma_last_mark(text: Seq<char>, mark: char)
    ensures
        last_mark(text, mark) matches Some(n) ==> 0 <= n < text.len(),
    decreases text.len(),
{
    if text.len() > 0 && text.last() != mark {
        lemma_last_mark(text.drop_last(), mark);
    }
}

/// Each clause takes something away.
proof fn lemma_clause_shortens(before: LoadProgress)
    requires
        before.rest.len() > 0,
    ensures
        load_clause(before) matches Ok(next) ==> next.rest.len() < before.rest.len(),
{
    let text = before.rest;
    lemma_last_mark(text.skip(1), ')');
    match last_mark(text.skip(1), ')') {
        Some(end) => {
            lemma_trim_start_len(text.skip(1).skip(end + 1));
        },
        None => {},
    }
    lemma_behind_word(text, "fields terminated by"@);
    lemma_behind_word(text, "columns terminated by"@);
    match behind_field_words(text) {
        Some(after) => {
            lemma_literal_len(after);
            match literal(after) {
                Some((_, rest)) => {
                    lemma_trim_start_len(rest);
                },
                None => {},
            }
        },
        None => {},
    }
    lemma_behind_word(text, "lines terminated by"@);
    match behind_word(text, "lines terminated by"@) {
        Some(after) => {
            lemma_literal_len(after);
            match literal(after) {
                Some((_, rest)) => {
                    lemma_trim_start_len(rest);
                },
                None => {},
            }
        },
        None => {},
    }
    lemma_behind_word(text, "ignore "@);
    match behind_word(text, "ignore "@) {
        Some(after) => {
            lemma_digits_end(after);
            let rest = after.skip(digits_end(after) as int);
            lemma_trim_start_len(rest);
            lemma_behind_word(trim_start(rest), "lines"@);
            reveal_strlit("lines");
            assert("lines"@.len() == 5);
        },
        None => {},
    }
}

proof fn lemma_digits_end(text: Seq<char>)
    ensures
        digits_end(text) <= text.len(),
    decreases text.len(),
{
    if text.len() > 0 && is_digit(text[0]) {
        lemma_digits_end(text.skip(1));
    }
}

fn count_digits(text: &[char]) -> (end: usize)
    ensures
        end == digits_end(text@),
        end <= text@.len(),
{
    let mut end: usize = 0;
    assert(text@.skip(0) =~= text@);
    while end < text.len() && '0' <= text[end] && text[end] <= '9'
        invariant
            end <= text@.len(),
            digits_end(text@) == end + digits_end(text@.skip(end as int)),
        decreases text@.len() - end,
    {
        assert(text@.skip(end as int).skip(1) =~= text@.skip(end + 1));
        end += 1;
    }
    end
}

/// What a statement that loads data asks for.
pub open spec fn load_request(query: Seq<char>) -> Result<LoadModel, Report> {
    match behind_word(bare_statement(query), "load data local infile"@) {
        None => Err(unsupported_report("not a LOAD DATA LOCAL INFILE statement"@)),
        Some(rest) => match literal(rest) {
            None => Err(report("42000"@, "LOAD DATA LOCAL INFILE requires a filename"@)),
            Some((filename, rest)) => match behind_word(trim_start(rest), "into table"@) {
                None => Err(report("42000"@, "LOAD DATA LOCAL INFILE requires INTO TABLE"@)),
                Some(rest) => match leading_name(rest) {
                    None => Err(report("42000"@, "LOAD DATA requires a table name"@)),
                    Some((table_name, rest)) => match load_clauses(
                        LoadProgress {
                            rest: trim_start(rest),
                            columns: seq![],
                            options: default_options(),
                        },
                    ) {
                        Err(e) => Err(e),
                        Ok(done) => Ok(
                            LoadModel {
                                filename,
                                table_name,
                                columns: done.columns,
                                options: done.options,
                            },
                        ),
                    },
                },
            },
        },
    }
}

/// Reads the next clause; gives what comes behind it.
fn take_load_clause<'a>(
    text: &'a [char],
    columns: &mut Vec<String>,
    options: &mut CopyInOptions,
) -> (result: Result<&'a [char], UserError>)
    requires
        text@.len() > 0,
    ensures
        match result {
            Ok(rest) => load_clause(
                LoadProgress { rest: text@, columns: views(old(columns)@), options: old(options)@ },
            ) == Ok::<LoadProgress, Report>(
                LoadProgress {
                    rest: rest@,
                    columns: views(final(columns)@),
                    options: final(options)@,
                },
            ),
            Err(e) => load_clause(
                LoadProgress { rest: text@, columns: views(old(columns)@), options: old(options)@ },
            ) == Err::<LoadProgress, Report>(e@),
        },
{
    if text[0] == '(' {
        let list = part(text, 1, text.len());
        assert(list@ =~= text@.skip(1));
        return match find_last_mark(list, ')') {
            None => Err(user_error("42000", "LOAD DATA column list is unterminated")),
            Some(end) => {
                let inner = part(list, 0, end);
                assert(inner@ =~= list@.take(end as int));
                *columns = columns_in(inner);
                let rest = part(list, end + 1, list.len());
                assert(rest@ =~= list@.skip(end + 1));
                Ok(trim_start_chars(rest))
            },
        };
    }
    let fields = match after_word(text, "fields terminated by") {
        Some(rest) => Some(rest),
        None => after_word(text, "columns terminated by"),
    };
    if let Some(after) = fields {
        return match parse_mysql_quoted_literal(after) {
            None => Err(user_error("42000", "FIELDS TERMINATED BY requires a string literal")),
            Some((value, rest)) => {
                let chars = chars_of(value.as_str());
                if chars.len() == 1 {
                    options.delimiter = chars[0];
                    Ok(trim_start_chars(rest))
                } else {
                    Err(user_error("42000", "FIELDS TERMINATED BY requires a single character"))
                }
            },
        };
    }
    if let Some(after) = after_word(text, "lines terminated by") {
        return match parse_mysql_quoted_literal(after) {
            None => Err(user_error("42000", "LINES TERMINATED BY requires a string literal")),
            Some((value, rest)) => {
                if same_text(value.as_str(), "\n") {
                    Ok(trim_start_chars(rest))
                } else {
                    Err(
                        unsupported("LOAD DATA currently supports only LINES TERMINATED BY '\\n'"),
                    )
                }
            },
        };
    }
    if let Some(after) = after_word(text, "ignore ") {
        let end: usize = count_digits(after);
        let digits = part(after, 0, end);
        assert(digits@ =~= after@.take(end as int));
        let count: u64 = match parse_digits(digits, usize::MAX as u64) {
            Some(n) => n,
            None => 0,
        };
        let behind = part(after, end, after.len());
        assert(behind@ =~= after@.skip(end as int));
        return match after_word(trim_start_chars(behind), "lines") {
            None => Err(user_error("42000", "IGNORE requires LINES")),
            Some(rest) => {
                if count > 1 {
                    Err(unsupported("LOAD DATA currently supports only IGNORE 1 LINES"))
                } else {
                    options.header = count == 1;
                    Ok(rest)
                }
            },
        };
    }
    let shown: usize = if text.len() < 48 {
        text.len()
    } else {
        48
    };
    let near = string_of(part(text, 0, shown));
    assert(near@ =~= text@.take(shown as int));
    let message = three_texts("unsupported LOAD DATA clause near '", near.as_str(), "'");
    Err(unsupported(message.as_str()))
}

/// Reads a statement that loads data from the client.
pub fn parse_mysql_load_data_local(query: &str) -> (result: Result<
    MySqlLoadDataLocalSpec,
    UserError,
>)
    ensures
        seen(result) == load_request(query@),
{
    let chars = chars_of(query);
    let rest = match after_word(bare_chars(chars.as_slice()), "load data local infile") {
        None => {
            return Err(unsupported("not a LOAD DATA LOCAL INFILE statement"));
        },
        Some(rest) => rest,
    };
    let (filename, rest) = match parse_mysql_quoted_literal(rest) {
        None => {
            return Err(user_error("42000", "LOAD DATA LOCAL INFILE requires a filename"));
        },
        Some(found) => found,
    };
    let rest = match after_word(trim_start_chars(rest), "into table") {
        None => {
            return Err(user_error("42000", "LOAD DATA LOCAL INFILE requires INTO TABLE"));
        },
        Some(rest) => rest,
    };
    let (table_name, rest) = match parse_mysql_identifier_token(rest) {
        None => {
            return Err(user_error("42000", "LOAD DATA requires a table name"));
        },
        Some(found) => found,
    };
    let mut options = CopyInOptions::new();
    let mut columns: Vec<String> = Vec::new();
    let mut left = trim_start_chars(rest);
    assert(views(columns@) =~= Seq::<Seq<char>>::empty());
    let ghost start = LoadProgress {
        rest: left@,
        columns: seq![],
        options: default_options(),
    };
    while left.len() > 0
        invariant
            load_clauses(start) == load_clauses(
                LoadProgress { rest: left@, columns: views(columns@), options: options@ },
            ),
            match load_clauses(start) {
                Err(e) => load_request(query@) == Err::<LoadModel, Report>(e),
                Ok(_) => true,
            },
        decreases left@.len(),
    {
        proof {
            lemma_clause_shortens(
                LoadProgress { rest: left@, columns: views(columns@), options: options@ },
            );
        }
        left = match take_load_clause(left, &mut columns, &mut options) {
            Err(e) => {
                return Err(e);
            },
            Ok(next) => next,
        };
    }
    Ok(MySqlLoadDataLocalSpec { filename, table_name, columns, options })
}

/// The file that a statement loads data from, where it is such a statement.
pub fn mysql_load_data_local_filename(query: &str) -> (filename: Option<String>)
    ensures
        option_view(filename) == (match load_request(query@) {
            Ok(request) => Some(request.filename),
            Err(_) => None,
        }),
{
    match parse_mysql_load_data_local(query) {
        Ok(request) => Some(request.filename),
        Err(_) => None,
    }
}

} // verus!
