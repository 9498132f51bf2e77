//! Text primitives: building strings piece by piece, ASCII case, decimal numbers.
use vstd::prelude::*;
use vstd::utf8::{decode_utf8, encode_utf8, valid_utf8};

use crate::bytes::bytes_of;

verus! {

/// `String::push` puts one character behind the others.
pub assume_specification[ String::push ](text: &mut String, ch: char)
    ensures
        final(text)@ == old(text)@.push(ch),
;

/// `String::push_str` puts the characters of another string behind the others.
pub assume_specification[ String::push_str ](text: &mut String, tail: &str)
    ensures
        final(text)@ == old(text)@ + tail@,
;

/// `str`'s `==`: two strings are equal where they have the same characters.
#[verifier::external_body]
pub(crate) fn same_text(a: &str, b: &str) -> (same: bool)
    ensures
        same == (a@ == b@),
{
    a == b
}

/// The message of the error that `String::from_utf8` gives for bytes that are not UTF-8.
pub uninterp spec fn utf8_error(bytes: Seq<u8>) -> Seq<char>;

/// `String::from_utf8`: the string that the bytes encode, where they are UTF-8; else the
/// error's message.
#[verifier::external_body]
pub(crate) fn string_from_utf8(bytes: Vec<u8>) -> (text: Result<String, String>)
    ensures
        match text {
            Ok(s) => valid_utf8(bytes@) && s@ == decode_utf8(bytes@),
            Err(message) => !valid_utf8(bytes@) && message@ == utf8_error(bytes@),
        },
{
    String::from_utf8(bytes).map_err(|e| e.to_string())
}

/// The UTF-8 bytes of a string.
pub fn utf8_bytes(text: &str) -> (bytes: Vec<u8>)
    ensures
        bytes@ == encode_utf8(text@),
{
    bytes_of(text.as_bytes())
}

/// The UTF-8 form of two texts in a row is that of the first and then that of the second.
pub proof fn lemma_utf8_concat(a: Seq<char>, b: Seq<char>)
    ensures
        encode_utf8(a + b) == encode_utf8(a) + encode_utf8(b),
    decreases a.len(),
{
    if a.len() == 0 {
        assert(a + b =~= b);
        assert(encode_utf8(a) =~= Seq::<u8>::empty());
        assert(encode_utf8(a) + encode_utf8(b) =~= encode_utf8(b));
    } else {
        let rest = a.drop_first();
        lemma_utf8_concat(rest, b);
        assert((a + b).drop_first() =~= rest + b);
        assert(encode_utf8(a + b) =~= encode_utf8(a) + encode_utf8(b));
    }
}

/// The decimal digit character of `d`.
pub open spec fn digit_char(d: nat) -> char {
    (48 + d) as char
}

/// `n` in decimal, without leading zeros.
pub open spec fn decimal(n: nat) -> Seq<char>
    decreases n,
{
    if n < 10 {
        seq![digit_char(n)]
    } else {
        decimal(n / 10).push(digit_char(n % 10))
    }
}

/// `n` in decimal, with a minus sign where it is negative.
pub open spec fn signed_decimal(n: int) -> Seq<char> {
    if n < 0 {
        seq!['-'] + decimal((-n) as nat)
    } else {
        decimal(n as nat)
    }
}

fn digit_to_char(d: u64) -> (ch: char)
    requires
        d < 10,
    ensures
        ch == digit_char(d as nat),
{
    (48u8 + d as u8) as char
}

/// Appends `n` in decimal.
pub fn push_decimal(text: &mut String, n: u64)
    ensures
        final(text)@ == old(text)@ + decimal(n as nat),
    decreases n,
{
    if n >= 10 {
        push_decimal(text, n / 10);
    }
    text.push(digit_to_char(n % 10));
    proof {
        assert(text@ =~= old(text)@ + decimal(n as nat));
    }
}

/// `n` in decimal.
pub fn decimal_text(n: u64) -> (text: String)
    ensures
        text@ == decimal(n as nat),
{
    let mut text = String::new();
    push_decimal(&mut text, n);
    assert(text@ =~= decimal(n as nat));
    text
}

/// `n` in decimal, with a minus sign where it is negative.
pub fn signed_decimal_text(n: i64) -> (text: String)
    ensures
        text@ == signed_decimal(n as int),
{
    let mut text = String::new();
    if n < 0 {
        text.push('-');
        let magnitude: i128 = -(n as i128);
        push_decimal(&mut text, magnitude as u64);
    } else {
        push_decimal(&mut text, n as u64);
    }
    assert(text@ =~= signed_decimal(n as int));
    text
}

/// Whether `ch` is a decimal digit.
pub open spec fn is_digit(ch: char) -> bool {
    '0' <= ch <= '9'
}

/// Whether every character is a decimal digit.
pub open spec fn all_digits(text: Seq<char>) -> bool {
    forall|i: int| 0 <= i < text.len() ==> is_digit(#[trigger] text[i])
}

/// The number that decimal digits stand for.
pub open spec fn digits_value(text: Seq<char>) -> nat
    decreases text.len(),
{
    if text.len() == 0 {
        0
    } else {
        digits_value(text.drop_last()) * 10 + (text.last() as nat - 48) as nat
    }
}

/// A number in decimal is made of digits, stands for itself and starts with zero only
/// where it is zero.
pub proof fn lemma_decimal_shape(n: nat)
    ensures
        decimal(n).len() >= 1,
        all_digits(decimal(n)),
        digits_value(decimal(n)) == n,
        n != 0 ==> decimal(n)[0] != '0',
        n == 0 ==> decimal(n) == seq!['0'],
    decreases n,
{
    if n < 10 {
        assert(decimal(n).drop_last() =~= seq![]);
        assert(digits_value(seq![]) == 0);
    } else {
        lemma_decimal_shape(n / 10);
        assert(decimal(n).drop_last() =~= decimal(n / 10));
        assert forall|i: int| 0 <= i < decimal(n).len() implies is_digit(
            #[trigger] decimal(n)[i],
        ) by {
            if i < decimal(n / 10).len() {
                assert(decimal(n)[i] == decimal(n / 10)[i]);
            }
        }
    }
}

/// The value of a longer run of digits is not smaller.
pub proof fn lemma_digits_value_prefix(text: Seq<char>, cut: int)
    requires
        0 <= cut <= text.len(),
        all_digits(text),
    ensures
        digits_value(text.take(cut)) <= digits_value(text),
    decreases text.len(),
{
    if cut == text.len() {
        assert(text.take(cut) =~= text);
    } else {
        assert(text.drop_last().take(cut) =~= text.take(cut));
        lemma_digits_value_prefix(text.drop_last(), cut);
    }
}

/// The value of a run of digits, where it is not empty, holds nothing else and fits.
pub open spec fn digits_number(text: Seq<char>, limit: nat) -> Option<nat> {
    if text.len() > 0 && all_digits(text) && digits_value(text) <= limit {
        Some(digits_value(text))
    } else {
        None
    }
}

/// Reads a run of decimal digits as a number of at most `limit`.
pub fn parse_digits(text: &[char], limit: u64) -> (number: Option<u64>)
    ensures
        match number {
            Some(n) => digits_number(text@, limit as nat) == Some(n as nat),
            None => digits_number(text@, limit as nat) is None,
        },
{
    if text.len() == 0 {
        return None;
    }
    let mut value: u64 = 0;
    let mut i: usize = 0;
    while i < text.len()
        invariant
            i <= text@.len(),
            value <= limit,
            forall|k: int| 0 <= k < i ==> is_digit(#[trigger] text@[k]),
            value == digits_value(text@.take(i as int)),
        decreases text@.len() - i,
    {
        let ch = text[i];
        if !('0' <= ch && ch <= '9') {
            return None;
        }
        let digit: u64 = (ch as u8 - 48u8) as u64;
        assert(text@.take(i + 1).drop_last() =~= text@.take(i as int));
        let wide: u128 = (value as u128) * 10 + digit as u128;
        if wide > limit as u128 {
            proof {
                if all_digits(text@) {
                    lemma_digits_value_prefix(text@, i + 1);
                }
            }
            return None;
        }
        value = wide as u64;
        i += 1;
    }
    assert(text@.take(i as int) =~= text@);
    Some(value)
}

/// Reads a number in the form that [`decimal_text`] gives it.
pub fn parse_decimal_u32(text: &[char]) -> (number: Option<u32>)
    ensures
        match number {
            Some(n) => text@ == decimal(n as nat),
            None => forall|n: u32| text@ != #[trigger] decimal(n as nat),
        },
{
    let parsed = parse_digits(text, 0xffff_ffff);
    match parsed {
        Some(n) => {
            let again = chars_of(decimal_text(n).as_str());
            let same = same_chars(text, again.as_slice());
            if same {
                Some(n as u32)
            } else {
                proof {
                    assert forall|m: u32| text@ != #[trigger] decimal(m as nat) by {
                        lemma_decimal_shape(m as nat);
                    }
                }
                None
            }
        },
        None => {
            proof {
                assert forall|m: u32| text@ != #[trigger] decimal(m as nat) by {
                    lemma_decimal_shape(m as nat);
                }
            }
            None
        },
    }
}

/// Whether two character strings are equal.
pub fn same_chars(a: &[char], b: &[char]) -> (same: bool)
    ensures
        same == (a@ == b@),
{
    if a.len() != b.len() {
        return false;
    }
    let mut i: usize = 0;
    while i < a.len()
        invariant
            i <= a@.len(),
            a@.len() == b@.len(),
            forall|k: int| 0 <= k < i ==> a@[k] == b@[k],
        decreases a@.len() - i,
    {
        if a[i] != b[i] {
            return false;
        }
        i += 1;
    }
    assert(a@ =~= b@);
    true
}

/// An ASCII capital letter.
pub open spec fn is_ascii_upper(ch: char) -> bool {
    'A' <= ch <= 'Z'
}

/// A character with ASCII capitals made small.
pub open spec fn lower_char(ch: char) -> char {
    if is_ascii_upper(ch) {
        ((ch as u32) + 32) as char
    } else {
        ch
    }
}

/// A text with ASCII capitals made small.
pub open spec fn lower(text: Seq<char>) -> Seq<char> {
    text.map_values(|ch: char| lower_char(ch))
}

fn ascii_lower_char(ch: char) -> (small: char)
    ensures
        small == lower_char(ch),
{
    if 'A' <= ch && ch <= 'Z' {
        ((ch as u8) + 32) as char
    } else {
        ch
    }
}

/// The characters of a string.
pub fn chars_of(text: &str) -> (chars: Vec<char>)
    ensures
        chars@ == text@,
{
    let mut chars: Vec<char> = Vec::new();
    for ch in iter: text.chars()
        invariant
            chars@ == iter.seq().take(iter.index()),
            iter.seq() == text@,
    {
        assert(iter.seq().take(iter.index() + 1) =~= iter.seq().take(iter.index()).push(ch));
        chars.push(ch);
    }
    assert(chars@ =~= text@);
    chars
}

/// The pieces of a text between separators.
pub open spec fn split(text: Seq<char>, separator: char) -> Seq<Seq<char>>
    decreases text.len(),
{
    if text.len() == 0 {
        seq![seq![]]
    } else {
        let before = split(text.drop_last(), separator);
        if text.last() == separator {
            before.push(seq![])
        } else {
            before.drop_last().push(before.last().push(text.last()))
        }
    }
}

/// The characters of strings.
pub open spec fn texts(strings: Seq<String>) -> Seq<Seq<char>> {
    strings.map_values(|string: String| string@)
}

/// The pieces of a text between separators.
pub fn split_text(text: &str, separator: char) -> (pieces: Vec<String>)
    ensures
        texts(pieces@) == split(text@, separator),
        pieces@.len() >= 1,
{
    let chars = chars_of(text);
    let mut pieces: Vec<String> = Vec::new();
    let mut piece = String::new();
    let mut i: usize = 0;
    assert(texts(pieces@).push(piece@) =~= split(text@.take(0), separator));
    while i < chars.len()
        invariant
            i <= chars@.len(),
            chars@ == text@,
            texts(pieces@).push(piece@) == split(text@.take(i as int), separator),
        decreases chars@.len() - i,
    {
        let ghost before = texts(pieces@).push(piece@);
        assert(text@.take(i + 1).drop_last() =~= text@.take(i as int));
        assert(before.drop_last() =~= texts(pieces@));
        let ghost done = texts(pieces@);
        let ch = chars[i];
        if ch == separator {
            let mut full = String::new();
            std::mem::swap(&mut full, &mut piece);
            pieces.push(full);
            assert(texts(pieces@) =~= before);
        } else {
            piece.push(ch);
        }
        i += 1;
    }
    assert(text@.take(i as int) =~= text@);
    let ghost done = texts(pieces@).push(piece@);
    pieces.push(piece);
    assert(texts(pieces@) =~= done);
    pieces
}

/// The string made of the given characters.
pub fn string_of(chars: &[char]) -> (text: String)
    ensures
        text@ == chars@,
{
    let mut text = String::new();
    let mut i: usize = 0;
    while i < chars.len()
        invariant
            i <= chars@.len(),
            text@ == chars@.take(i as int),
        decreases chars@.len() - i,
    {
        assert(chars@.take(i + 1) =~= chars@.take(i as int).push(chars@[i as int]));
        text.push(chars[i]);
        i += 1;
    }
    assert(text@ =~= chars@);
    text
}

/// A text with ASCII capitals made small.
pub fn lower_text(text: &str) -> (small: String)
    ensures
        small@ == lower(text@),
{
    let chars = chars_of(text);
    let mut small = String::new();
    let mut i: usize = 0;
    while i < chars.len()
        invariant
            i <= chars@.len(),
            small@ == lower(chars@.take(i as int)),
        decreases chars@.len() - i,
    {
        assert(lower(chars@.take(i + 1)) =~= lower(chars@.take(i as int)).push(
            lower_char(chars@[i as int]),
        ));
        small.push(ascii_lower_char(chars[i]));
        i += 1;
    }
    assert(chars@.take(i as int) =~= chars@);
    small
}

/// A character with small ASCII letters made capital.
pub open spec fn upper_char(ch: char) -> char {
    if 'a' <= ch <= 'z' {
        ((ch as u32) - 32) as char
    } else {
        ch
    }
}

/// A text with small ASCII letters made capital.
pub open spec fn upper(text: Seq<char>) -> Seq<char> {
    text.map_values(|ch: char| upper_char(ch))
}

/// A text with small ASCII letters made capital.
pub fn upper_text(text: &str) -> (large: String)
    ensures
        large@ == upper(text@),
{
    let chars = chars_of(text);
    let mut large = String::new();
    let mut i: usize = 0;
    while i < chars.len()
        invariant
            i <= chars@.len(),
            large@ == upper(chars@.take(i as int)),
        decreases chars@.len() - i,
    {
        assert(upper(chars@.take(i + 1)) =~= upper(chars@.take(i as int)).push(
            upper_char(chars@[i as int]),
        ));
        if 'a' <= chars[i] && chars[i] <= 'z' {
            large.push(((chars[i] as u8) - 32) as char);
        } else {
            large.push(chars[i]);
        }
        i += 1;
    }
    assert(chars@.take(i as int) =~= chars@);
    large
}

/// Whether two texts are equal but for the case of ASCII letters.
pub fn same_but_for_case(a: &str, b: &str) -> (same: bool)
    ensures
        same == (lower(a@) == lower(b@)),
{
    same_text(lower_text(a).as_str(), lower_text(b).as_str())
}

/// Three texts in a row.
pub fn three_texts(a: &str, b: &str, c: &str) -> (text: String)
    ensures
        text@ == a@ + b@ + c@,
{
    let mut text = a.to_string();
    text.push_str(b);
    text.push_str(c);
    text
}

/// A white-space character of Unicode.
pub open spec fn is_space(ch: char) -> bool {
    ||| '\u{9}' <= ch <= '\u{d}'
    ||| ch == ' '
    ||| ch == '\u{85}'
    ||| ch == '\u{a0}'
    ||| ch == '\u{1680}'
    ||| '\u{2000}' <= ch <= '\u{200a}'
    ||| ch == '\u{2028}'
    ||| ch == '\u{2029}'
    ||| ch == '\u{202f}'
    ||| ch == '\u{205f}'
    ||| ch == '\u{3000}'
}

/// Whether a character is white space.
pub fn is_space_char(ch: char) -> (answer: bool)
    ensures
        answer == is_space(ch),
{
    ('\u{9}' <= ch && ch <= '\u{d}') || ch == ' ' || ch == '\u{85}' || ch == '\u{a0}' || ch
        == '\u{1680}' || ('\u{2000}' <= ch && ch <= '\u{200a}') || ch == '\u{2028}' || ch
        == '\u{2029}' || ch == '\u{202f}' || ch == '\u{205f}' || ch == '\u{3000}'
}

/// A text without the white space it starts with.
pub open spec fn trim_start(text: Seq<char>) -> Seq<char>
    decreases text.len(),
{
    if text.len() > 0 && is_space(text[0]) {
        trim_start(text.skip(1))
    } else {
        text
    }
}

/// A text without the white space it ends with.
pub open spec fn trim_end(text: Seq<char>) -> Seq<char>
    decreases text.len(),
{
    if text.len() > 0 && is_space(text.last()) {
        trim_end(text.drop_last())
    } else {
        text
    }
}

/// A text without the white space around it.
pub open spec fn trim(text: Seq<char>) -> Seq<char> {
    trim_end(trim_start(text))
}

/// A text without the copies of a character that it ends with.
pub open spec fn trim_end_of(text: Seq<char>, mark: char) -> Seq<char>
    decreases text.len(),
{
    if text.len() > 0 && text.last() == mark {
        trim_end_of(text.drop_last(), mark)
    } else {
        text
    }
}

/// A text without the copies of a character that it starts with.
pub open spec fn trim_start_of(text: Seq<char>, mark: char) -> Seq<char>
    decreases text.len(),
{
    if text.len() > 0 && text[0] == mark {
        trim_start_of(text.skip(1), mark)
    } else {
        text
    }
}

/// A text without the copies of a character around it.
pub open spec fn trim_of(text: Seq<char>, mark: char) -> Seq<char> {
    trim_end_of(trim_start_of(text, mark), mark)
}

/// The part of the characters between two positions.
pub fn part(text: &[char], from: usize, to: usize) -> (piece: &[char])
    requires
        from <= to <= text@.len(),
    ensures
        piece@ == text@.subrange(from as int, to as int),
{
    vstd::slice::slice_subrange(text, from, to)
}

/// The characters without the white space they start with.
pub fn trim_start_chars(text: &[char]) -> (rest: &[char])
    ensures
        rest@ == trim_start(text@),
{
    let mut i: usize = 0;
    assert(text@.skip(0) =~= text@);
    while i < text.len() && is_space_char(text[i])
        invariant
            i <= text@.len(),
            trim_start(text@.skip(i as int)) == trim_start(text@),
        decreases text@.len() - i,
    {
        assert(text@.skip(i as int).skip(1) =~= text@.skip(i + 1));
        i += 1;
    }
    assert(text@.subrange(i as int, text@.len() as int) =~= text@.skip(i as int));
    part(text, i, text.len())
}

/// The characters without the white space they end with.
pub fn trim_end_chars(text: &[char]) -> (rest: &[char])
    ensures
        rest@ == trim_end(text@),
{
    let mut end: usize = text.len();
    assert(text@.take(end as int) =~= text@);
    while end > 0 && is_space_char(text[end - 1])
        invariant
            end <= text@.len(),
            trim_end(text@.take(end as int)) == trim_end(text@),
        decreases end,
    {
        assert(text@.take(end as int).drop_last() =~= text@.take(end - 1));
        end -= 1;
    }
    assert(text@.subrange(0, end as int) =~= text@.take(end as int));
    part(text, 0, end)
}

/// The characters without the white space around them.
pub fn trim_chars(text: &[char]) -> (rest: &[char])
    ensures
        rest@ == trim(text@),
{
    trim_end_chars(trim_start_chars(text))
}

/// A text without the white space around it.
pub fn trim_text(text: &str) -> (rest: String)
    ensures
        rest@ == trim(text@),
{
    let chars = chars_of(text);
    string_of(trim_chars(chars.as_slice()))
}

/// The characters without the copies of a mark that they end with.
pub fn trim_end_mark(text: &[char], mark: char) -> (rest: &[char])
    ensures
        rest@ == trim_end_of(text@, mark),
{
    let mut end: usize = text.len();
    assert(text@.take(end as int) =~= text@);
    while end > 0 && text[end - 1] == mark
        invariant
            end <= text@.len(),
            trim_end_of(text@.take(end as int), mark) == trim_end_of(text@, mark),
        decreases end,
    {
        assert(text@.take(end as int).drop_last() =~= text@.take(end - 1));
        end -= 1;
    }
    assert(text@.subrange(0, end as int) =~= text@.take(end as int));
    part(text, 0, end)
}

/// The characters without the copies of a mark around them.
pub fn trim_mark(text: &[char], mark: char) -> (rest: &[char])
    ensures
        rest@ == trim_of(text@, mark),
{
    let mut i: usize = 0;
    assert(text@.skip(0) =~= text@);
    while i < text.len() && text[i] == mark
        invariant
            i <= text@.len(),
            trim_start_of(text@.skip(i as int), mark) == trim_start_of(text@, mark),
        decreases text@.len() - i,
    {
        assert(text@.skip(i as int).skip(1) =~= text@.skip(i + 1));
        i += 1;
    }
    assert(text@.subrange(i as int, text@.len() as int) =~= text@.skip(i as int));
    trim_end_mark(part(text, i, text.len()), mark)
}

/// A statement without the white space and the semicolons that end it.
pub open spec fn bare_statement(text: Seq<char>) -> Seq<char> {
    trim(trim_end_of(trim(text), ';'))
}

/// The characters of a statement without the white space and semicolons that end it.
pub fn bare_chars(text: &[char]) -> (rest: &[char])
    ensures
        rest@ == bare_statement(text@),
{
    trim_chars(trim_end_mark(trim_chars(text), ';'))
}

/// Whether one text starts with another.
pub open spec fn begins(text: Seq<char>, start: Seq<char>) -> bool {
    start.len() <= text.len() && text.take(start.len() as int) == start
}

/// Whether one text starts with another.
pub fn begins_with(text: &[char], start: &str) -> (answer: bool)
    ensures
        answer == begins(text@, start@),
{
    let start = chars_of(start);
    if start.len() > text.len() {
        return false;
    }
    assert(text@.subrange(0, start@.len() as int) =~= text@.take(start@.len() as int));
    same_chars(part(text, 0, start.len()), start.as_slice())
}

/// Whether a text stands in another from a position on.
pub open spec fn occurs_at(text: Seq<char>, piece: Seq<char>, at: int) -> bool {
    0 <= at && at + piece.len() <= text.len() && text.subrange(at, at + piece.len()) == piece
}

/// Whether a text stands somewhere in another.
pub open spec fn contains_text(text: Seq<char>, piece: Seq<char>) -> bool {
    exists|at: int| occurs_at(text, piece, at)
}

/// The first position, from one on, at which a text stands in another.
pub open spec fn first_at(text: Seq<char>, piece: Seq<char>, from: int) -> Option<int>
    decreases text.len() + 1 - from,
{
    if from < 0 || from > text.len() {
        None
    } else if occurs_at(text, piece, from) {
        Some(from)
    } else {
        first_at(text, piece, from + 1)
    }
}

/// A text stands in another where it has a first position there.
pub proof fn lemma_first_at(text: Seq<char>, piece: Seq<char>, from: int)
    requires
        0 <= from,
    ensures
        match first_at(text, piece, from) {
            Some(at) => from <= at && occurs_at(text, piece, at) && (forall|k: int|
                from <= k < at ==> !occurs_at(text, piece, k)),
            None => forall|k: int| from <= k ==> !occurs_at(text, piece, k),
        },
    decreases text.len() + 1 - from,
{
    if from <= text.len() && !occurs_at(text, piece, from) {
        lemma_first_at(text, piece, from + 1);
    }
}

/// The first position, from one on, at which a text stands in another.
pub fn find_text(text: &[char], piece: &str, from: usize) -> (place: Option<usize>)
    ensures
        match place {
            Some(at) => first_at(text@, piece@, from as int) == Some(at as int),
            None => first_at(text@, piece@, from as int) is None,
        },
{
    let piece_chars = chars_of(piece);
    let width = piece_chars.len();
    if from > text.len() {
        return None;
    }
    let mut i: usize = from;
    while i <= text.len() && width <= text.len() - i
        invariant
            from <= i,
            i <= text@.len() + 1,
            text@.len() <= usize::MAX,
            width == piece@.len(),
            piece_chars@ == piece@,
            first_at(text@, piece@, from as int) == first_at(text@, piece@, i as int),
        decreases text@.len() + 1 - i,
    {
        if same_chars(part(text, i, i + width), piece_chars.as_slice()) {
            return Some(i);
        }
        if i == text.len() {
            assert(first_at(text@, piece@, i + 1) is None);
            return None;
        }
        i += 1;
    }
    proof {
        lemma_first_at(text@, piece@, i as int);
    }
    None
}

/// Whether a text stands somewhere in another.
pub fn has_text(text: &[char], piece: &str) -> (answer: bool)
    ensures
        answer == contains_text(text@, piece@),
{
    proof {
        lemma_first_at(text@, piece@, 0);
    }
    find_text(text, piece, 0).is_some()
}

/// The words of a text: what stands between white space.
pub open spec fn words(text: Seq<char>) -> Seq<Seq<char>>
    decreases text.len(),
{
    if text.len() == 0 {
        seq![]
    } else {
        let before = words(text.drop_last());
        if is_space(text.last()) {
            before
        } else if text.len() >= 2 && !is_space(text[text.len() - 2]) {
            before.drop_last().push(before.last().push(text.last()))
        } else {
            before.push(seq![text.last()])
        }
    }
}

/// The words of a text.
pub fn words_of(text: &[char]) -> (found: Vec<String>)
    ensures
        texts(found@) == words(text@),
{
    let mut found: Vec<String> = Vec::new();
    let mut word = String::new();
    let mut in_word = false;
    let mut i: usize = 0;
    assert(texts(found@) =~= words(text@.take(0)));
    while i < text.len()
        invariant
            i <= text@.len(),
            in_word == (i > 0 && !is_space(text@[i - 1])),
            in_word ==> texts(found@).push(word@) == words(text@.take(i as int)),
            !in_word ==> texts(found@) == words(text@.take(i as int)) && word@ == Seq::<
                char,
            >::empty(),
        decreases text@.len() - i,
    {
        let ghost before = texts(found@);
        let ghost old_word = word@;
        assert(text@.take(i + 1).drop_last() =~= text@.take(i as int));
        let ch = text[i];
        if is_space_char(ch) {
            if in_word {
                let mut full = String::new();
                std::mem::swap(&mut full, &mut word);
                found.push(full);
                assert(texts(found@) =~= before.push(old_word));
                in_word = false;
            }
        } else {
            word.push(ch);
            proof {
                if in_word {
                    assert(before.push(old_word).drop_last() =~= before);
                } else {
                    assert(word@ =~= seq![ch]);
                }
            }
            in_word = true;
        }
        i += 1;
    }
    assert(text@.take(i as int) =~= text@);
    if in_word {
        let ghost done = texts(found@).push(word@);
        found.push(word);
        assert(texts(found@) =~= done);
    }
    found
}

/// The first position of a character.
pub open spec fn mark_at(text: Seq<char>, mark: char) -> Option<nat>
    decreases text.len(),
{
    if text.len() == 0 {
        None
    } else if text[0] == mark {
        Some(0)
    } else {
        match mark_at(text.skip(1), mark) {
            Some(at) => Some(at + 1),
            None => None,
        }
    }
}

/// The first position of a character.
pub fn find_mark(text: &[char], mark: char) -> (place: Option<usize>)
    ensures
        match place {
            Some(at) => mark_at(text@, mark) == Some(at as nat) && at < text@.len(),
            None => mark_at(text@, mark) is None,
        },
{
    let mut i: usize = 0;
    assert(text@.skip(0) =~= text@);
    while i < text.len()
        invariant
            i <= text@.len(),
            match mark_at(text@.skip(i as int), mark) {
                Some(at) => mark_at(text@, mark) == Some((i + at) as nat),
                None => mark_at(text@, mark) is None,
            },
        decreases text@.len() - i,
    {
        assert(text@.skip(i as int)[0] == text@[i as int]);
        if text[i] == mark {
            return Some(i);
        }
        assert(text@.skip(i as int).skip(1) =~= text@.skip(i + 1));
        i += 1;
    }
    None
}

/// The number that digits, with or without a plus sign, stand for, where it fits.
pub open spec fn unsigned_number(text: Seq<char>, limit: nat) -> Option<nat> {
    if text.len() > 0 && text[0] == '+' {
        digits_number(text.skip(1), limit)
    } else {
        digits_number(text, limit)
    }
}

/// Reads a number of at most `limit`, with or without a plus sign.
pub fn parse_unsigned(text: &[char], limit: u64) -> (number: Option<u64>)
    ensures
        match number {
            Some(n) => unsigned_number(text@, limit as nat) == Some(n as nat),
            None => unsigned_number(text@, limit as nat) is None,
        },
{
    if text.len() > 0 && text[0] == '+' {
        assert(text@.subrange(1, text@.len() as int) =~= text@.skip(1));
        parse_digits(part(text, 1, text.len()), limit)
    } else {
        parse_digits(text, limit)
    }
}

/// The number that digits, with or without a sign, stand for, where it is not more than
/// `below` under zero and not more than `above` over it.
pub open spec fn integer_within(text: Seq<char>, below: nat, above: nat) -> Option<int> {
    if text.len() > 0 && text[0] == '-' {
        match digits_number(text.skip(1), below) {
            Some(n) => Some(-(n as int)),
            None => None,
        }
    } else {
        match unsigned_number(text, above) {
            Some(n) => Some(n as int),
            None => None,
        }
    }
}

/// Reads a number with or without a sign, of at most `below` under zero and `above` over it.
pub fn parse_integer(text: &[char], below: u64, above: u64) -> (number: Option<i128>)
    ensures
        match number {
            Some(n) => integer_within(text@, below as nat, above as nat) == Some(n as int) && -below
                <= n <= above,
            None => integer_within(text@, below as nat, above as nat) is None,
        },
{
    if text.len() > 0 && text[0] == '-' {
        assert(text@.subrange(1, text@.len() as int) =~= text@.skip(1));
        match parse_digits(part(text, 1, text.len()), below) {
            Some(n) => {
                let negative: i128 = -(n as i128);
                Some(negative)
            },
            None => None,
        }
    } else {
        match parse_unsigned(text, above) {
            Some(n) => Some(n as i128),
            None => None,
        }
    }
}

/// The number that digits, with or without a sign, stand for, where it fits 32 bits.
pub open spec fn signed_number(text: Seq<char>) -> Option<int> {
    integer_within(text, 0x8000_0000, 0x7fff_ffff)
}

/// Reads a 32-bit number with or without a sign.
pub fn parse_signed(text: &[char]) -> (number: Option<i32>)
    ensures
        match number {
            Some(n) => signed_number(text@) == Some(n as int),
            None => signed_number(text@) is None,
        },
{
    match parse_integer(text, 0x8000_0000, 0x7fff_ffff) {
        Some(n) => Some(n as i32),
        None => None,
    }
}

/// The number that digits, with or without a sign, stand for, where it fits 64 bits.
pub open spec fn whole_number(text: Seq<char>) -> Option<int> {
    integer_within(text, 0x8000_0000_0000_0000, 0x7fff_ffff_ffff_ffff)
}

/// Reads a 64-bit number with or without a sign.
pub fn parse_whole(text: &[char]) -> (number: Option<i64>)
    ensures
        match number {
            Some(n) => whole_number(text@) == Some(n as int),
            None => whole_number(text@) is None,
        },
{
    match parse_integer(text, 0x8000_0000_0000_0000, 0x7fff_ffff_ffff_ffff) {
        Some(n) => Some(n as i64),
        None => None,
    }
}

/// No word of a text is longer than the text, and a text that ends in a word has one.
pub proof fn lemma_words_fit(text: Seq<char>)
    ensures
        forall|i: int|
            0 <= i < words(text).len() ==> (#[trigger] words(text)[i]).len() <= text.len(),
        text.len() > 0 && !is_space(text.last()) ==> words(text).len() > 0,
    decreases text.len(),
{
    if text.len() > 0 {
        let shorter = text.drop_last();
        lemma_words_fit(shorter);
        let before = words(shorter);
        assert forall|i: int| 0 <= i < words(text).len() implies (#[trigger] words(text)[i]).len()
            <= text.len() by {
            if is_space(text.last()) {
                assert(before[i].len() <= shorter.len());
            } else if text.len() >= 2 && !is_space(text[text.len() - 2]) {
                assert(shorter.last() == text[text.len() - 2]);
                assert(before.last().len() <= shorter.len());
                if i < before.len() - 1 {
                    assert(words(text)[i] == before[i]);
                }
            } else if i < before.len() {
                assert(words(text)[i] == before[i]);
            }
        }
    }
}

} // verus!
