//! Parameters in the text of statements.
use vstd::prelude::*;

use crate::schema::views;
use crate::server::literals::{doubled, quoted_literal};
use crate::text::{
    chars_of, digits_number, find_text, first_at, is_digit, lemma_first_at, parse_digits, part,
    string_of,
};

verus! {

/// The place behind a quoted text whose opening mark is before `at`; a mark that stands twice
/// belongs to the text, and a text without a closing mark goes to the end.
pub open spec fn quote_end(sql: Seq<char>, mark: char, at: int) -> int
    decreases sql.len() - at,
{
    if at >= sql.len() {
        sql.len() as int
    } else if sql[at] == mark {
        if at + 1 < sql.len() && sql[at + 1] == mark {
            quote_end(sql, mark, at + 2)
        } else {
            at + 1
        }
    } else {
        quote_end(sql, mark, at + 1)
    }
}

/// The place of the next end of a line.
pub open spec fn line_end(sql: Seq<char>, at: int) -> int
    decreases sql.len() - at,
{
    if at >= sql.len() {
        sql.len() as int
    } else if sql[at] == '\n' {
        at
    } else {
        line_end(sql, at + 1)
    }
}

/// The place behind a comment whose opening is before `at`; one without an end goes up to the
/// last character.
pub open spec fn comment_end(sql: Seq<char>, at: int) -> int
    decreases sql.len() - at,
{
    if at + 1 >= sql.len() {
        at
    } else if sql[at] == '*' && sql[at + 1] == '/' {
        at + 2
    } else {
        comment_end(sql, at + 1)
    }
}

/// The place behind digits.
pub open spec fn digits_end(sql: Seq<char>, at: int) -> int
    decreases sql.len() - at,
{
    if at < sql.len() && is_digit(sql[at]) {
        digits_end(sql, at + 1)
    } else {
        at
    }
}

/// Whether a character may stand between the dollars of a quote.
pub open spec fn is_tag_char(ch: char) -> bool {
    'a' <= ch <= 'z' || 'A' <= ch <= 'Z' || '0' <= ch <= '9' || ch == '_'
}

/// The place behind the second dollar of a quote whose first dollar is before `at`.
pub open spec fn tag_end(sql: Seq<char>, at: int) -> Option<int>
    decreases sql.len() - at,
{
    if at >= sql.len() {
        None
    } else if sql[at] == '$' {
        Some(at + 1)
    } else if is_tag_char(sql[at]) {
        tag_end(sql, at + 1)
    } else {
        None
    }
}

/// The place behind a quote between dollar tags that begins at `at` with a tag up to `behind`.
pub open spec fn dollar_end(sql: Seq<char>, at: int, behind: int) -> int {
    match first_at(sql, sql.subrange(at, behind), behind) {
        Some(place) => place + (behind - at),
        None => sql.len() as int,
    }
}

/// The place behind the piece of a statement that begins at `at`: a quoted text, a comment, a
/// parameter, or one character.
pub open spec fn piece_end(sql: Seq<char>, at: int) -> int {
    if sql[at] == '\'' || sql[at] == '"' {
        quote_end(sql, sql[at], at + 1)
    } else if sql[at] == '-' && at + 1 < sql.len() && sql[at + 1] == '-' {
        line_end(sql, at + 2)
    } else if sql[at] == '/' && at + 1 < sql.len() && sql[at + 1] == '*' {
        comment_end(sql, at + 2)
    } else if sql[at] == '$' && at + 1 < sql.len() && is_digit(sql[at + 1]) {
        digits_end(sql, at + 1)
    } else if sql[at] == '$' {
        match tag_end(sql, at + 1) {
            Some(behind) => dollar_end(sql, at, behind),
            None => at + 1,
        }
    } else {
        at + 1
    }
}

/// The parameter that a piece stands for, where it stands for one.
pub open spec fn piece_parameter(sql: Seq<char>, at: int, parameters: Seq<Seq<char>>) -> Option<
    Seq<char>,
> {
    if sql[at] == '$' && at + 1 < sql.len() && is_digit(sql[at + 1]) {
        match digits_number(sql.subrange(at + 1, piece_end(sql, at)), usize::MAX as nat) {
            Some(n) => if 1 <= n <= parameters.len() {
                Some(parameters[n - 1])
            } else {
                None
            },
            None => None,
        }
    } else {
        None
    }
}

/// A statement, from some place on, in which parameters stand for their placeholders.
pub open spec fn replaced(sql: Seq<char>, parameters: Seq<Seq<char>>, at: int) -> Seq<char>
    decreases sql.len() - at,
{
    if 0 <= at < sql.len() && at < piece_end(sql, at) <= sql.len() {
        (match piece_parameter(sql, at, parameters) {
            Some(value) => value,
            None => sql.subrange(at, piece_end(sql, at)),
        }) + replaced(sql, parameters, piece_end(sql, at))
    } else {
        seq![]
    }
}

proof fn lemma_quote_end(sql: Seq<char>, mark: char, at: int)
    requires
        0 <= at <= sql.len(),
    ensures
        at <= quote_end(sql, mark, at) <= sql.len(),
    decreases sql.len() - at,
{
    if at < sql.len() {
        if sql[at] == mark {
            if at + 1 < sql.len() && sql[at + 1] == mark {
                lemma_quote_end(sql, mark, at + 2);
            }
        } else {
            lemma_quote_end(sql, mark, at + 1);
        }
    }
}

proof fn lemma_line_end(sql: Seq<char>, at: int)
    requires
        0 <= at <= sql.len(),
    ensures
        at <= line_end(sql, at) <= sql.len(),
    decreases sql.len() - at,
{
    if at < sql.len() && sql[at] != '\n' {
        lemma_line_end(sql, at + 1);
    }
}

proof fn lemma_comment_end(sql: Seq<char>, at: int)
    requires
        0 <= at <= sql.len(),
    ensures
        at <= comment_end(sql, at) <= sql.len(),
    decreases sql.len() - at,
{
    if at + 1 < sql.len() && !(sql[at] == '*' && sql[at + 1] == '/') {
        lemma_comment_end(sql, at + 1);
    }
}

proof fn lemma_digits_end(sql: Seq<char>, at: int)
    requires
        0 <= at <= sql.len(),
    ensures
        at <= digits_end(sql, at) <= sql.len(),
    decreases sql.len() - at,
{
    if at < sql.len() && is_digit(sql[at]) {
        lemma_digits_end(sql, at + 1);
    }
}

proof fn lemma_tag_end(sql: Seq<char>, at: int)
    requires
        0 <= at <= sql.len(),
    ensures
        tag_end(sql, at) matches Some(behind) ==> at < behind <= sql.len(),
    decreases sql.len() - at,
{
    if at < sql.len() && sql[at] != '$' && is_tag_char(sql[at]) {
        lemma_tag_end(sql, at + 1);
    }
}

/// Every piece has characters, and none goes beyond the end.
pub proof fn lemma_piece_end(sql: Seq<char>, at: int)
    requires
        0 <= at < sql.len(),
    ensures
        at < piece_end(sql, at) <= sql.len(),
{
    if sql[at] == '\'' || sql[at] == '"' {
        lemma_quote_end(sql, sql[at], at + 1);
    } else if sql[at] == '-' && at + 1 < sql.len() && sql[at + 1] == '-' {
        lemma_line_end(sql, at + 2);
    } else if sql[at] == '/' && at + 1 < sql.len() && sql[at + 1] == '*' {
        lemma_comment_end(sql, at + 2);
    } else if sql[at] == '$' && at + 1 < sql.len() && is_digit(sql[at + 1]) {
        lemma_digits_end(sql, at + 1);
        assert(digits_end(sql, at + 1) == digits_end(sql, at + 2));
        lemma_digits_end(sql, at + 2);
    } else if sql[at] == '$' {
        lemma_tag_end(sql, at + 1);
        if tag_end(sql, at + 1) is Some {
            let behind = tag_end(sql, at + 1)->0;
            lemma_first_at(sql, sql.subrange(at, behind), behind);
        }
    }
}

/// Without parameters a statement stays as it is.
pub proof fn law_no_parameters_no_change(sql: Seq<char>)
    ensures
        replaced(sql, seq![], 0) == sql,
{
    lemma_stays(sql, seq![], 0);
    assert(sql.subrange(0, sql.len() as int) =~= sql);
}

/// A statement without dollars stays as it is, whatever the parameters.
pub proof fn law_no_placeholders_no_change(sql: Seq<char>, parameters: Seq<Seq<char>>)
    requires
        !sql.contains('$'),
    ensures
        replaced(sql, parameters, 0) == sql,
{
    assert forall|i: int| 0 <= i < sql.len() implies sql[i] != '$' by {
        assert(sql.contains(sql[i]));
    }
    lemma_stays(sql, parameters, 0);
    assert(sql.subrange(0, sql.len() as int) =~= sql);
}

proof fn lemma_stays(sql: Seq<char>, parameters: Seq<Seq<char>>, at: int)
    requires
        0 <= at <= sql.len(),
        parameters.len() == 0 || forall|i: int| 0 <= i < sql.len() ==> sql[i] != '$',
    ensures
        replaced(sql, parameters, at) == sql.subrange(at, sql.len() as int),
    decreases sql.len() - at,
{
    if at < sql.len() {
        lemma_piece_end(sql, at);
        let end = piece_end(sql, at);
        lemma_stays(sql, parameters, end);
        assert(sql.subrange(at, end) + sql.subrange(end, sql.len() as int) =~= sql.subrange(
            at,
            sql.len() as int,
        ));
    } else {
        assert(replaced(sql, parameters, at) =~= sql.subrange(at, sql.len() as int));
    }
}

/// A quoted text stays as it is, whatever the parameters: the statement goes on behind it.
pub proof fn law_quoted_text_stays(sql: Seq<char>, parameters: Seq<Seq<char>>, at: int)
    requires
        0 <= at < sql.len(),
        sql[at] == '\'' || sql[at] == '"',
    ensures
        replaced(sql, parameters, at) == sql.subrange(at, quote_end(sql, sql[at], at + 1))
            + replaced(sql, parameters, quote_end(sql, sql[at], at + 1)),
{
    lemma_piece_end(sql, at);
}

/// Pairs of marks are passed over, up to a mark that stands alone.
proof fn lemma_quote_behind(sql: Seq<char>, mark: char, at: int, text: Seq<char>)
    requires
        0 <= at,
        at + doubled(text, mark).len() < sql.len(),
        sql.subrange(at, at + doubled(text, mark).len()) == doubled(text, mark),
        sql[at + doubled(text, mark).len()] == mark,
        at + doubled(text, mark).len() + 1 < sql.len() ==> sql[at + doubled(text, mark).len() + 1]
            != mark,
    ensures
        quote_end(sql, mark, at) == at + doubled(text, mark).len() + 1,
    decreases text.len(),
{
    let inner = doubled(text, mark);
    if text.len() > 0 {
        let rest = text.skip(1);
        lemma_doubled_front(text, mark);
        let first = doubled(text.take(1), mark);
        let behind = doubled(rest, mark);
        assert(inner == first + behind);
        assert(text.take(1).drop_last() =~= Seq::<char>::empty());
        assert(text.take(1).last() == text[0]);
        assert(doubled(text.take(1).drop_last(), mark) =~= Seq::<char>::empty());
        assert(sql.subrange(at, at + inner.len())[0] == first[0]);
        assert(sql[at] == text[0]);
        if text[0] == mark {
            assert(first =~= seq![mark, mark]);
            assert(sql.subrange(at, at + inner.len())[1] == mark);
            assert(sql.subrange(at + 2, at + 2 + behind.len()) =~= sql.subrange(
                at,
                at + inner.len(),
            ).skip(2));
            assert(inner.skip(2) =~= behind);
            lemma_quote_behind(sql, mark, at + 2, rest);
        } else {
            assert(first =~= seq![text[0]]);
            assert(sql.subrange(at + 1, at + 1 + behind.len()) =~= sql.subrange(
                at,
                at + inner.len(),
            ).skip(1));
            assert(inner.skip(1) =~= behind);
            lemma_quote_behind(sql, mark, at + 1, rest);
        }
    }
}

proof fn lemma_doubled_front(text: Seq<char>, mark: char)
    requires
        text.len() > 0,
    ensures
        doubled(text, mark) == doubled(text.take(1), mark) + doubled(text.skip(1), mark),
    decreases text.len(),
{
    if text.len() == 1 {
        assert(text.take(1) =~= text);
        assert(doubled(text.skip(1), mark) =~= Seq::<char>::empty());
        assert(doubled(text, mark) =~= doubled(text.take(1), mark) + doubled(text.skip(1), mark));
    } else {
        let init = text.drop_last();
        lemma_doubled_front(init, mark);
        assert(init.take(1) =~= text.take(1));
        assert(text.skip(1).drop_last() =~= init.skip(1));
        assert(text.skip(1).last() == text.last());
        assert(doubled(text, mark) =~= doubled(text.take(1), mark) + doubled(text.skip(1), mark));
    }
}

/// A literal that was quoted stays as it is in a statement, whatever it holds and whatever the
/// parameters, where no quote follows it at once: the statement goes on behind it.
pub proof fn law_quoted_literal_stays(
    before: Seq<char>,
    text: Seq<char>,
    after: Seq<char>,
    parameters: Seq<Seq<char>>,
)
    requires
        after.len() == 0 || after[0] != '\'',
    ensures
        ({
            let sql = before + quoted_literal(text) + after;
            replaced(sql, parameters, before.len() as int) == quoted_literal(text) + replaced(
                sql,
                parameters,
                (before + quoted_literal(text)).len() as int,
            )
        }),
        replaced(quoted_literal(text), parameters, 0) == quoted_literal(text),
{
    lemma_literal_stays(before, text, after, parameters);
    lemma_literal_stays(seq![], text, seq![], parameters);
    let literal = quoted_literal(text);
    assert(Seq::<char>::empty() + literal + Seq::<char>::empty() =~= literal);
    assert(replaced(literal, parameters, literal.len() as int) =~= Seq::<char>::empty());
    assert((Seq::<char>::empty() + literal) =~= literal);
    assert(literal + Seq::<char>::empty() =~= literal);
}

proof fn lemma_literal_stays(
    before: Seq<char>,
    text: Seq<char>,
    after: Seq<char>,
    parameters: Seq<Seq<char>>,
)
    requires
        after.len() == 0 || after[0] != '\'',
    ensures
        replaced(
            before + quoted_literal(text) + after,
            parameters,
            before.len() as int,
        ) == quoted_literal(text) + replaced(
            before + quoted_literal(text) + after,
            parameters,
            (before + quoted_literal(text)).len() as int,
        ),
{
    reveal_strlit("'");
    let literal = quoted_literal(text);
    let inner = doubled(text, '\'');
    let sql = before + literal + after;
    let at = before.len() as int;
    assert("'"@ =~= seq!['\'']);
    assert(literal =~= seq!['\''] + inner + seq!['\'']);
    assert(sql[at] == '\'');
    assert(sql.subrange(at + 1, at + 1 + inner.len()) =~= inner);
    assert(sql[at + 1 + inner.len()] == '\'');
    if after.len() > 0 {
        assert(sql[at + 2 + inner.len()] == after[0]);
    }
    lemma_quote_behind(sql, '\'', at + 1, text);
    law_quoted_text_stays(sql, parameters, at);
    assert(sql.subrange(at, at + 2 + inner.len()) =~= literal);
}

/// A placeholder gives its parameter, where there is one, and stays as it is elsewhere.
pub proof fn law_placeholders_give_parameters(
    sql: Seq<char>,
    parameters: Seq<Seq<char>>,
    at: int,
    n: nat,
)
    requires
        0 <= at < sql.len(),
        sql[at] == '$',
        at + 1 < sql.len(),
        is_digit(sql[at + 1]),
        digits_number(sql.subrange(at + 1, digits_end(sql, at + 1)), usize::MAX as nat) == Some(n),
    ensures
        replaced(sql, parameters, at) == (if 1 <= n <= parameters.len() {
            parameters[n - 1]
        } else {
            sql.subrange(at, digits_end(sql, at + 1))
        }) + replaced(sql, parameters, digits_end(sql, at + 1)),
{
    lemma_piece_end(sql, at);
}

fn skip_quote(sql: &[char], mark: char, from: usize) -> (end: usize)
    requires
        from <= sql@.len(),
    ensures
        end == quote_end(sql@, mark, from as int),
{
    let mut at: usize = from;
    while at < sql.len()
        invariant
            at <= sql@.len(),
            quote_end(sql@, mark, from as int) == quote_end(sql@, mark, at as int),
        decreases sql@.len() - at,
    {
        if sql[at] == mark {
            if at + 1 < sql.len() && sql[at + 1] == mark {
                at += 2;
            } else {
                return at + 1;
            }
        } else {
            at += 1;
        }
    }
    at
}

fn skip_line(sql: &[char], from: usize) -> (end: usize)
    requires
        from <= sql@.len(),
    ensures
        end == line_end(sql@, from as int),
{
    let mut at: usize = from;
    while at < sql.len() && sql[at] != '\n'
        invariant
            at <= sql@.len(),
            line_end(sql@, from as int) == line_end(sql@, at as int),
        decreases sql@.len() - at,
    {
        at += 1;
    }
    at
}

fn skip_comment(sql: &[char], from: usize) -> (end: usize)
    requires
        from <= sql@.len(),
    ensures
        end == comment_end(sql@, from as int),
{
    let mut at: usize = from;
    while at < sql.len() && sql.len() - at > 1
        invariant
            at <= sql@.len(),
            comment_end(sql@, from as int) == comment_end(sql@, at as int),
        decreases sql@.len() - at,
    {
        if sql[at] == '*' && sql[at + 1] == '/' {
            return at + 2;
        }
        at += 1;
    }
    at
}

fn skip_digits(sql: &[char], from: usize) -> (end: usize)
    requires
        from <= sql@.len(),
    ensures
        end == digits_end(sql@, from as int),
{
    let mut at: usize = from;
    while at < sql.len() && '0' <= sql[at] && sql[at] <= '9'
        invariant
            at <= sql@.len(),
            digits_end(sql@, from as int) == digits_end(sql@, at as int),
        decreases sql@.len() - at,
    {
        at += 1;
    }
    at
}

/// The length of the tag of a quote between dollars that begins at a place.
pub open spec fn tag_len(sql: Seq<char>, start: int) -> Option<int> {
    if 0 <= start < sql.len() && sql[start] == '$' {
        match tag_end(sql, start + 1) {
            Some(behind) => Some(behind - start),
            None => None,
        }
    } else {
        None
    }
}

/// The length of the tag of a quote between dollars that begins at a place.
pub fn dollar_quote_tag_len(sql: &[char], start: usize) -> (length: Option<usize>)
    ensures
        match length {
            Some(n) => tag_len(sql@, start as int) == Some(n as int),
            None => tag_len(sql@, start as int) is None,
        },
{
    if start >= sql.len() || sql[start] != '$' {
        return None;
    }
    let mut end: usize = start + 1;
    while end < sql.len()
        invariant
            start < end <= sql@.len(),
            tag_end(sql@, start + 1) == tag_end(sql@, end as int),
            start < sql@.len(),
            sql@[start as int] == '$',
        decreases sql@.len() - end,
    {
        let ch = sql[end];
        if ch == '$' {
            return Some(end + 1 - start);
        }
        let inner = ('a' <= ch && ch <= 'z') || ('A' <= ch && ch <= 'Z') || ('0' <= ch && ch
            <= '9') || ch == '_';
        if !inner {
            return None;
        }
        end += 1;
    }
    None
}

fn push_chars(out: &mut String, chars: &[char], from: usize, to: usize)
    requires
        from <= to <= chars@.len(),
    ensures
        final(out)@ == old(out)@ + chars@.subrange(from as int, to as int),
{
    let text = string_of(part(chars, from, to));
    out.push_str(text.as_str());
}

/// A statement in which parameters stand for their placeholders, which are left alone in quoted
/// texts and comments.
#[verifier::rlimit(40)]
pub fn replace_pg_parameter_placeholders(sql: &str, parameters: &Vec<String>) -> (out: String)
    ensures
        out@ == replaced(sql@, views(parameters@), 0),
{
    let chars = chars_of(sql);
    let text = chars.as_slice();
    let ghost values = views(parameters@);
    let mut out = String::new();
    let mut at: usize = 0;
    assert(out@ + replaced(sql@, values, 0) =~= replaced(sql@, values, 0));
    while at < text.len()
        invariant
            at <= text@.len(),
            text@ == sql@,
            values == views(parameters@),
            out@ + replaced(sql@, values, at as int) == replaced(sql@, values, 0),
        decreases text@.len() - at,
    {
        proof {
            lemma_piece_end(sql@, at as int);
            lemma_tag_end(sql@, at + 1);
        }
        let ghost before = out@;
        let ghost rest = replaced(sql@, values, piece_end(sql@, at as int));
        let ch = text[at];
        let next_is_digit = at + 1 < text.len() && '0' <= text[at + 1] && text[at + 1] <= '9';
        let end: usize;
        if ch == '\'' || ch == '"' {
            end = skip_quote(text, ch, at + 1);
            push_chars(&mut out, text, at, end);
        } else if ch == '-' && at + 1 < text.len() && text[at + 1] == '-' {
            end = skip_line(text, at + 2);
            push_chars(&mut out, text, at, end);
        } else if ch == '/' && at + 1 < text.len() && text[at + 1] == '*' {
            end = skip_comment(text, at + 2);
            push_chars(&mut out, text, at, end);
        } else if ch == '$' && next_is_digit {
            end = skip_digits(text, at + 1);
            match parse_digits(part(text, at + 1, end), usize::MAX as u64) {
                Some(n) => {
                    let index: usize = n as usize;
                    if index >= 1 && index <= parameters.len() {
                        assert(values[index - 1] == parameters@[index - 1]@);
                        out.push_str(parameters[index - 1].as_str());
                    } else {
                        push_chars(&mut out, text, at, end);
                    }
                },
                None => {
                    push_chars(&mut out, text, at, end);
                },
            }
        } else if ch == '$' {
            match dollar_quote_tag_len(text, at) {
                Some(length) => {
                    let behind: usize = at + length;
                    let tag = string_of(part(text, at, behind));
                    end = match find_text(text, tag.as_str(), behind) {
                        Some(place) => {
                            proof {
                                lemma_first_at(sql@, tag@, behind as int);
                            }
                            place + length
                        },
                        None => text.len(),
                    };
                    push_chars(&mut out, text, at, end);
                },
                None => {
                    end = at + 1;
                    push_chars(&mut out, text, at, end);
                },
            }
        } else {
            end = at + 1;
            push_chars(&mut out, text, at, end);
        }
        assert(end == piece_end(sql@, at as int));
        let ghost piece = match piece_parameter(sql@, at as int, values) {
            Some(value) => value,
            None => sql@.subrange(at as int, piece_end(sql@, at as int)),
        };
        assert(out@ == before + piece);
        assert(before + piece + rest =~= before + (piece + rest));
        at = end;
    }
    assert(out@ + replaced(sql@, values, at as int) =~= out@);
    out
}

} // verus!
