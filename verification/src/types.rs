//! Values, types and table descriptors.
use vstd::prelude::*;

use crate::text::{decimal, push_decimal};
use crate::text::{lemma_decimal_shape, parse_decimal_u32, string_of};

verus! {

/// The column that holds row identifiers in tables without a primary key of their own.
pub const INTERNAL_ROWID_COLUMN: &'static str = "__rowid__";

/// A value of one column in one row. Floating-point numbers are held by their IEEE 754 bits.
#[derive(Debug)]
pub enum ColumnValue {
    Null,
    Int16(i16),
    Int32(i32),
    Int64(i64),
    Float32(u32),
    Float64(u64),
    Numeric(String),
    Text(String),
    Date(String),
    Timestamp(String),
    TimestampTz(String),
    Uuid(String),
    Json(String),
    Jsonb(String),
    Bytea(Vec<u8>),
    Boolean(bool),
    Array(Vec<ColumnValue>),
}

/// What a [`ColumnValue`] stands for.
pub enum Datum {
    Null,
    Int16(i16),
    Int32(i32),
    Int64(i64),
    Float32(u32),
    Float64(u64),
    Numeric(Seq<char>),
    Text(Seq<char>),
    Date(Seq<char>),
    Timestamp(Seq<char>),
    TimestampTz(Seq<char>),
    Uuid(Seq<char>),
    Json(Seq<char>),
    Jsonb(Seq<char>),
    Bytea(Seq<u8>),
    Boolean(bool),
    Array(Seq<Datum>),
}

impl View for ColumnValue {
    type V = Datum;

    open spec fn view(&self) -> Datum {
        datum(*self)
    }
}

/// The datum of a value.
pub open spec fn datum(value: ColumnValue) -> Datum
    decreases value,
{
    match value {
        ColumnValue::Null => Datum::Null,
        ColumnValue::Int16(v) => Datum::Int16(v),
        ColumnValue::Int32(v) => Datum::Int32(v),
        ColumnValue::Int64(v) => Datum::Int64(v),
        ColumnValue::Float32(v) => Datum::Float32(v),
        ColumnValue::Float64(v) => Datum::Float64(v),
        ColumnValue::Numeric(v) => Datum::Numeric(v@),
        ColumnValue::Text(v) => Datum::Text(v@),
        ColumnValue::Date(v) => Datum::Date(v@),
        ColumnValue::Timestamp(v) => Datum::Timestamp(v@),
        ColumnValue::TimestampTz(v) => Datum::TimestampTz(v@),
        ColumnValue::Uuid(v) => Datum::Uuid(v@),
        ColumnValue::Json(v) => Datum::Json(v@),
        ColumnValue::Jsonb(v) => Datum::Jsonb(v@),
        ColumnValue::Bytea(v) => Datum::Bytea(v@),
        ColumnValue::Boolean(v) => Datum::Boolean(v),
        ColumnValue::Array(items) => Datum::Array(
            Seq::new(
                items@.len(),
                |i: int|
                    if 0 <= i < items@.len() {
                        datum(items@[i])
                    } else {
                        Datum::Null
                    },
            ),
        ),
    }
}

/// The data of a sequence of values.
pub open spec fn data(values: Seq<ColumnValue>) -> Seq<Datum> {
    values.map_values(|value: ColumnValue| value@)
}

/// Whether the bits of a single-precision number stand for a NaN.
pub open spec fn f32_is_nan(bits: u32) -> bool {
    0x7f80_0000 < bits % 0x8000_0000
}

/// Whether two single-precision numbers are equal: a NaN is equal to nothing, the two
/// zeros are equal.
pub open spec fn f32_eq(a: u32, b: u32) -> bool {
    !f32_is_nan(a) && !f32_is_nan(b) && (a == b || (a % 0x8000_0000 == 0 && b % 0x8000_0000 == 0))
}

/// Whether the bits of a double-precision number stand for a NaN.
pub open spec fn f64_is_nan(bits: u64) -> bool {
    0x7ff0_0000_0000_0000 < bits % 0x8000_0000_0000_0000
}

/// Whether two double-precision numbers are equal.
pub open spec fn f64_eq(a: u64, b: u64) -> bool {
    !f64_is_nan(a) && !f64_is_nan(b) && (a == b || (a % 0x8000_0000_0000_0000 == 0 && b
        % 0x8000_0000_0000_0000 == 0))
}

/// Whether two data are equal as values: of one kind, with equal contents.
pub open spec fn datum_eq(a: Datum, b: Datum) -> bool
    decreases a,
{
    match (a, b) {
        (Datum::Float32(x), Datum::Float32(y)) => f32_eq(x, y),
        (Datum::Float64(x), Datum::Float64(y)) => f64_eq(x, y),
        (Datum::Array(x), Datum::Array(y)) => x.len() == y.len() && forall|i: int|
            #![trigger x[i]]
            #![trigger y[i]]
            0 <= i < x.len() ==> datum_eq(x[i], y[i]),
        _ => a == b,
    }
}

/// Whether two lists of data are equal item by item.
pub open spec fn data_eq(a: Seq<Datum>, b: Seq<Datum>) -> bool {
    a.len() == b.len() && forall|i: int|
        #![trigger a[i]]
        #![trigger b[i]]
        0 <= i < a.len() ==> datum_eq(a[i], b[i])
}

/// Whether two data are written alike: of one kind, with the same contents. Unlike [`datum_eq`]
/// this tells the two zeros apart, and no number that is not one from another.
pub open spec fn alike(a: Datum, b: Datum) -> bool
    decreases a,
{
    match (a, b) {
        (Datum::Float32(x), Datum::Float32(y)) => x == y || f32_is_nan(x) && f32_is_nan(y),
        (Datum::Float64(x), Datum::Float64(y)) => x == y || f64_is_nan(x) && f64_is_nan(y),
        (Datum::Array(x), Datum::Array(y)) => x.len() == y.len() && forall|i: int|
            #![trigger x[i]]
            #![trigger y[i]]
            0 <= i < x.len() ==> alike(x[i], y[i]),
        _ => a == b,
    }
}

/// Whether two lists of data are written alike item by item.
pub open spec fn all_alike(a: Seq<Datum>, b: Seq<Datum>) -> bool {
    a.len() == b.len() && forall|i: int|
        #![trigger a[i]]
        #![trigger b[i]]
        0 <= i < a.len() ==> alike(a[i], b[i])
}

impl Clone for ColumnValue {
    fn clone(&self) -> (copy: Self)
        ensures
            copy@ == self@,
    {
        self.copied()
    }
}

fn same_f32(a: u32, b: u32) -> (same: bool)
    ensures
        same == f32_eq(a, b),
{
    a % 0x8000_0000 <= 0x7f80_0000 && b % 0x8000_0000 <= 0x7f80_0000 && (a == b || (a % 0x8000_0000
        == 0 && b % 0x8000_0000 == 0))
}

fn same_f64(a: u64, b: u64) -> (same: bool)
    ensures
        same == f64_eq(a, b),
{
    a % 0x8000_0000_0000_0000 <= 0x7ff0_0000_0000_0000 && b % 0x8000_0000_0000_0000
        <= 0x7ff0_0000_0000_0000 && (a == b || (a % 0x8000_0000_0000_0000 == 0 && b
        % 0x8000_0000_0000_0000 == 0))
}

/// Whether two byte strings are the same.
pub fn same_bytes(a: &Vec<u8>, b: &Vec<u8>) -> (same: bool)
    ensures
        same == (a@ == b@),
{
    if a.len() != b.len() {
        return false;
    }
    let mut i: usize = 0;
    while i < a.len()
        invariant
            i <= a.len(),
            a.len() == b.len(),
            forall|k: int| 0 <= k < i ==> a@[k] == b@[k],
        decreases a.len() - i,
    {
        if a[i] != b[i] {
            return false;
        }
        i += 1;
    }
    assert(a@ =~= b@);
    true
}

impl ColumnValue {
    /// Whether this is the SQL null.
    pub fn is_null(&self) -> (answer: bool)
        ensures
            answer == (self@ == Datum::Null),
    {
        match self {
            ColumnValue::Null => true,
            _ => false,
        }
    }

    /// A value with the same datum.
    pub fn copied(&self) -> (copy: ColumnValue)
        ensures
            copy@ == self@,
        decreases self,
    {
        match self {
            ColumnValue::Null => ColumnValue::Null,
            ColumnValue::Int16(v) => ColumnValue::Int16(*v),
            ColumnValue::Int32(v) => ColumnValue::Int32(*v),
            ColumnValue::Int64(v) => ColumnValue::Int64(*v),
            ColumnValue::Float32(v) => ColumnValue::Float32(*v),
            ColumnValue::Float64(v) => ColumnValue::Float64(*v),
            ColumnValue::Numeric(v) => ColumnValue::Numeric(v.clone()),
            ColumnValue::Text(v) => ColumnValue::Text(v.clone()),
            ColumnValue::Date(v) => ColumnValue::Date(v.clone()),
            ColumnValue::Timestamp(v) => ColumnValue::Timestamp(v.clone()),
            ColumnValue::TimestampTz(v) => ColumnValue::TimestampTz(v.clone()),
            ColumnValue::Uuid(v) => ColumnValue::Uuid(v.clone()),
            ColumnValue::Json(v) => ColumnValue::Json(v.clone()),
            ColumnValue::Jsonb(v) => ColumnValue::Jsonb(v.clone()),
            ColumnValue::Bytea(v) => {
                let copy: Vec<u8> = v.clone();
                assert(copy@ =~= v@);
                ColumnValue::Bytea(copy)
            },
            ColumnValue::Boolean(v) => ColumnValue::Boolean(*v),
            ColumnValue::Array(items) => {
                let mut copies: Vec<ColumnValue> = Vec::new();
                let mut i: usize = 0;
                while i < items.len()
                    invariant
                        i <= items.len(),
                        copies@.len() == i,
                        self is Array,
                        *items == self->Array_0,
                        forall|k: int| 0 <= k < i ==> datum(#[trigger] copies@[k]) == datum(items@[k]),
                    decreases items.len() - i,
                {
                    copies.push(items[i].copied());
                    i += 1;
                }
                assert(datum(ColumnValue::Array(copies))->Array_0 =~= datum(*self)->Array_0);
                ColumnValue::Array(copies)
            },
        }
    }

    /// Whether two values are equal.
    pub fn equals(&self, other: &ColumnValue) -> (same: bool)
        ensures
            same == datum_eq(self@, other@),
        decreases self,
    {
        match (self, other) {
            (ColumnValue::Null, ColumnValue::Null) => true,
            (ColumnValue::Int16(a), ColumnValue::Int16(b)) => *a == *b,
            (ColumnValue::Int32(a), ColumnValue::Int32(b)) => *a == *b,
            (ColumnValue::Int64(a), ColumnValue::Int64(b)) => *a == *b,
            (ColumnValue::Float32(a), ColumnValue::Float32(b)) => same_f32(*a, *b),
            (ColumnValue::Float64(a), ColumnValue::Float64(b)) => same_f64(*a, *b),
            (ColumnValue::Numeric(a), ColumnValue::Numeric(b)) => *a == *b,
            (ColumnValue::Text(a), ColumnValue::Text(b)) => *a == *b,
            (ColumnValue::Date(a), ColumnValue::Date(b)) => *a == *b,
            (ColumnValue::Timestamp(a), ColumnValue::Timestamp(b)) => *a == *b,
            (ColumnValue::TimestampTz(a), ColumnValue::TimestampTz(b)) => *a == *b,
            (ColumnValue::Uuid(a), ColumnValue::Uuid(b)) => *a == *b,
            (ColumnValue::Json(a), ColumnValue::Json(b)) => *a == *b,
            (ColumnValue::Jsonb(a), ColumnValue::Jsonb(b)) => *a == *b,
            (ColumnValue::Bytea(a), ColumnValue::Bytea(b)) => same_bytes(a, b),
            (ColumnValue::Boolean(a), ColumnValue::Boolean(b)) => *a == *b,
            (ColumnValue::Array(a), ColumnValue::Array(b)) => {
                if a.len() != b.len() {
                    return false;
                }
                let mut i: usize = 0;
                while i < a.len()
                    invariant
                        i <= a.len(),
                        a.len() == b.len(),
                        *self == ColumnValue::Array(*a),
                        *other == ColumnValue::Array(*b),
                        forall|k: int|
                            0 <= k < i ==> datum_eq(datum(#[trigger] a@[k]), datum(b@[k])),
                    decreases a.len() - i,
                {
                    if !a[i].equals(&b[i]) {
                        assert(!datum_eq(self@->Array_0[i as int], other@->Array_0[i as int]));
                        return false;
                    }
                    i += 1;
                }
                assert(forall|k: int|
                    0 <= k < self@->Array_0.len() ==> datum_eq(
                        #[trigger] self@->Array_0[k],
                        other@->Array_0[k],
                    ));
                true
            },
            _ => false,
        }
    }

    /// Whether two values are written alike.
    pub fn is_alike(&self, other: &ColumnValue) -> (same: bool)
        ensures
            same == alike(self@, other@),
        decreases self,
    {
        match (self, other) {
            (ColumnValue::Float32(a), ColumnValue::Float32(b)) => *a == *b || (*a % 0x8000_0000
                > 0x7f80_0000 && *b % 0x8000_0000 > 0x7f80_0000),
            (ColumnValue::Float64(a), ColumnValue::Float64(b)) => *a == *b || (*a
                % 0x8000_0000_0000_0000 > 0x7ff0_0000_0000_0000 && *b % 0x8000_0000_0000_0000
                > 0x7ff0_0000_0000_0000),
            (ColumnValue::Array(a), ColumnValue::Array(b)) => {
                if a.len() != b.len() {
                    return false;
                }
                let mut i: usize = 0;
                while i < a.len()
                    invariant
                        i <= a.len(),
                        a.len() == b.len(),
                        *self == ColumnValue::Array(*a),
                        *other == ColumnValue::Array(*b),
                        forall|k: int|
                            0 <= k < i ==> alike(datum(#[trigger] a@[k]), datum(b@[k])),
                    decreases a.len() - i,
                {
                    if !a[i].is_alike(&b[i]) {
                        assert(!alike(self@->Array_0[i as int], other@->Array_0[i as int]));
                        return false;
                    }
                    i += 1;
                }
                assert(forall|k: int|
                    0 <= k < self@->Array_0.len() ==> alike(
                        #[trigger] self@->Array_0[k],
                        other@->Array_0[k],
                    ));
                true
            },
            _ => self.equals(other),
        }
    }
}

impl PartialEq for ColumnValue {
    fn eq(&self, other: &Self) -> (same: bool) {
        self.equals(other)
    }
}

impl vstd::std_specs::cmp::PartialEqSpecImpl for ColumnValue {
    open spec fn obeys_eq_spec() -> bool {
        true
    }

    open spec fn eq_spec(&self, other: &Self) -> bool {
        datum_eq(self@, other@)
    }
}

/// Sizes of MySQL integer columns.
#[derive(Clone, Copy, Debug, PartialEq, Eq, Structural)]
pub enum MySqlIntKind {
    Tiny,
    Small,
    Medium,
    Int,
    Big,
}

/// Sizes of MySQL text and blob columns.
#[derive(Clone, Copy, Debug, PartialEq, Eq, Structural)]
pub enum MySqlSize {
    Tiny,
    Regular,
    Medium,
    Long,
}

/// The declared type of a column.
#[derive(Debug)]
pub enum DataType {
    MySqlInt { kind: MySqlIntKind, unsigned: bool },
    Bit(Option<u32>),
    Year,
    Int16,
    Int32,
    Int64,
    Float32,
    MySqlFloat { unsigned: bool },
    Float64,
    MySqlDouble { unsigned: bool },
    Numeric { precision: Option<u32>, scale: Option<u32> },
    Text,
    MySqlText { size: MySqlSize },
    VarChar(Option<u32>),
    Char(Option<u32>),
    Date,
    Time,
    MySqlTime { fraction: Option<u32> },
    TimeTz,
    Interval,
    Timestamp,
    MySqlDateTime { fraction: Option<u32> },
    MySqlTimestamp { fraction: Option<u32> },
    TimestampTz,
    Uuid,
    Json,
    Jsonb,
    Domain(String),
    EnumOf(String),
    SetOf(String),
    Geometry(String),
    Boolean,
    Bytea,
    Binary(Option<u32>),
    VarBinary(Option<u32>),
    Blob { size: MySqlSize },
    Array(Box<DataType>),
}

impl Clone for DataType {
    fn clone(&self) -> (copy: Self)
        ensures
            copy == *self,
    {
        self.copied()
    }
}

spec fn kind_letter(kind: MySqlIntKind) -> char {
    match kind {
        MySqlIntKind::Tiny => 't',
        MySqlIntKind::Small => 's',
        MySqlIntKind::Medium => 'm',
        MySqlIntKind::Int => 'i',
        MySqlIntKind::Big => 'b',
    }
}

/// The two letters that a type's catalog code starts with.
pub closed spec fn type_letters(data_type: DataType) -> (char, char) {
    match data_type {
        DataType::MySqlInt { kind, .. } => ('m', kind_letter(kind)),
        DataType::MySqlFloat { .. } => ('m', 'f'),
        DataType::MySqlDouble { .. } => ('m', 'd'),
        DataType::MySqlText { .. } => ('m', 'x'),
        DataType::Blob { .. } => ('m', 'z'),
        DataType::MySqlTime { .. } => ('m', 'h'),
        DataType::MySqlDateTime { .. } => ('m', 'a'),
        DataType::MySqlTimestamp { .. } => ('m', 'p'),
        DataType::Bit(_) => ('b', 't'),
        DataType::Year => ('y', 'r'),
        DataType::Int16 => ('i', '2'),
        DataType::Int32 => ('i', '4'),
        DataType::Int64 => ('i', '8'),
        DataType::Float32 => ('f', '4'),
        DataType::Float64 => ('f', '8'),
        DataType::Numeric { .. } => ('n', 'u'),
        DataType::Text => ('t', 'x'),
        DataType::VarChar(_) => ('v', 'c'),
        DataType::Char(_) => ('c', 'h'),
        DataType::Date => ('d', 'a'),
        DataType::Time => ('t', 'm'),
        DataType::TimeTz => ('t', 'z'),
        DataType::Interval => ('i', 'v'),
        DataType::Timestamp => ('t', 's'),
        DataType::TimestampTz => ('t', 'o'),
        DataType::Uuid => ('u', 'u'),
        DataType::Json => ('j', 's'),
        DataType::Jsonb => ('j', 'b'),
        DataType::Domain(_) => ('d', 'o'),
        DataType::EnumOf(_) => ('e', 'n'),
        DataType::SetOf(_) => ('s', 'e'),
        DataType::Geometry(_) => ('g', 'e'),
        DataType::Boolean => ('b', 'o'),
        DataType::Bytea => ('b', 'y'),
        DataType::Binary(_) => ('b', 'i'),
        DataType::VarBinary(_) => ('v', 'b'),
        DataType::Array(_) => ('a', 'r'),
    }
}

spec fn optional_number(number: Option<u32>) -> Seq<char> {
    match number {
        Some(n) => decimal(n as nat),
        None => seq![],
    }
}

spec fn sign_letter(unsigned: bool) -> Seq<char> {
    if unsigned {
        seq!['u']
    } else {
        seq!['s']
    }
}

spec fn size_letter(size: MySqlSize) -> Seq<char> {
    match size {
        MySqlSize::Tiny => seq!['t'],
        MySqlSize::Regular => seq!['r'],
        MySqlSize::Medium => seq!['m'],
        MySqlSize::Long => seq!['l'],
    }
}

/// What follows the letters in a type's catalog code: its parameters.
pub closed spec fn type_parameters(data_type: DataType) -> Seq<char>
    decreases data_type, 0nat,
{
    match data_type {
        DataType::MySqlInt { unsigned, .. } => sign_letter(unsigned),
        DataType::MySqlFloat { unsigned } => sign_letter(unsigned),
        DataType::MySqlDouble { unsigned } => sign_letter(unsigned),
        DataType::MySqlText { size } => size_letter(size),
        DataType::Blob { size } => size_letter(size),
        DataType::MySqlTime { fraction } => optional_number(fraction),
        DataType::MySqlDateTime { fraction } => optional_number(fraction),
        DataType::MySqlTimestamp { fraction } => optional_number(fraction),
        DataType::Bit(n) => optional_number(n),
        DataType::VarChar(n) => optional_number(n),
        DataType::Char(n) => optional_number(n),
        DataType::Binary(n) => optional_number(n),
        DataType::VarBinary(n) => optional_number(n),
        DataType::Numeric { precision, scale } => optional_number(precision) + seq![','] + optional_number(
            scale,
        ),
        DataType::Domain(name) => name@,
        DataType::EnumOf(name) => name@,
        DataType::SetOf(name) => name@,
        DataType::Geometry(name) => name@,
        DataType::Array(inner) => type_code(*inner),
        _ => seq![],
    }
}

/// The code under which the catalog keeps a type: two letters and the type's parameters.
pub closed spec fn type_code(data_type: DataType) -> Seq<char>
    decreases data_type, 1nat,
{
    seq![type_letters(data_type).0, type_letters(data_type).1] + type_parameters(data_type)
}

proof fn lemma_type_code_parts(data_type: DataType)
    ensures
        type_code(data_type).len() == 2 + type_parameters(data_type).len(),
        type_code(data_type)[0] == type_letters(data_type).0,
        type_code(data_type)[1] == type_letters(data_type).1,
        type_code(data_type).skip(2) == type_parameters(data_type),
{
    assert(type_code(data_type).skip(2) =~= type_parameters(data_type));
}

/// Whether two types are the same, names compared letter by letter.
pub open spec fn same_type(a: DataType, b: DataType) -> bool
    decreases a,
{
    match (a, b) {
        (DataType::Domain(x), DataType::Domain(y)) => x@ == y@,
        (DataType::EnumOf(x), DataType::EnumOf(y)) => x@ == y@,
        (DataType::SetOf(x), DataType::SetOf(y)) => x@ == y@,
        (DataType::Geometry(x), DataType::Geometry(y)) => x@ == y@,
        (DataType::Array(x), DataType::Array(y)) => same_type(*x, *y),
        _ => a == b,
    }
}

proof fn lemma_numbers_differ(a: Option<u32>, b: Option<u32>)
    ensures
        optional_number(a) == optional_number(b) <==> a == b,
{
    if let Some(n) = a {
        lemma_decimal_shape(n as nat);
    }
    if let Some(n) = b {
        lemma_decimal_shape(n as nat);
    }
}

/// A number has no comma, so the first comma parts precision and scale.
proof fn lemma_precisions_differ(
    precision: Option<u32>,
    scale: Option<u32>,
    other_precision: Option<u32>,
    other_scale: Option<u32>,
)
    ensures
        numeric_parameters(precision, scale) == numeric_parameters(other_precision, other_scale)
            <==> precision == other_precision && scale == other_scale,
{
    let a = optional_number(precision);
    let b = optional_number(other_precision);
    let x = numeric_parameters(precision, scale);
    let y = numeric_parameters(other_precision, other_scale);
    if x == y {
        if let Some(n) = precision {
            lemma_decimal_shape(n as nat);
        }
        if let Some(n) = other_precision {
            lemma_decimal_shape(n as nat);
        }
        assert(x[a.len() as int] == ',' && y[b.len() as int] == ',');
        if a.len() < b.len() {
            assert(y[a.len() as int] == b[a.len() as int]);
        }
        if b.len() < a.len() {
            assert(x[b.len() as int] == a[b.len() as int]);
        }
        assert(x.take(a.len() as int) =~= a);
        assert(y.take(a.len() as int) =~= b);
        assert(x.skip(a.len() as int + 1) =~= optional_number(scale));
        assert(y.skip(a.len() as int + 1) =~= optional_number(other_scale));
        lemma_numbers_differ(precision, other_precision);
        lemma_numbers_differ(scale, other_scale);
    }
}

/// Types have the same code only where they are the same.
pub proof fn law_type_codes_differ(a: DataType, b: DataType)
    ensures
        type_code(a) == type_code(b) <==> same_type(a, b),
    decreases a,
{
    lemma_type_code_parts(a);
    lemma_type_code_parts(b);
    match (a, b) {
        (DataType::Array(x), DataType::Array(y)) => {
            law_type_codes_differ(*x, *y);
        },
        (
            DataType::Numeric { precision, scale },
            DataType::Numeric { precision: other_precision, scale: other_scale },
        ) => {
            lemma_precisions_differ(precision, scale, other_precision, other_scale);
        },
        (DataType::MySqlTime { fraction: x }, DataType::MySqlTime { fraction: y }) => {
            lemma_numbers_differ(x, y);
        },
        (DataType::MySqlDateTime { fraction: x }, DataType::MySqlDateTime { fraction: y }) => {
            lemma_numbers_differ(x, y);
        },
        (DataType::MySqlTimestamp { fraction: x }, DataType::MySqlTimestamp { fraction: y }) => {
            lemma_numbers_differ(x, y);
        },
        (DataType::Bit(x), DataType::Bit(y)) => {
            lemma_numbers_differ(x, y);
        },
        (DataType::VarChar(x), DataType::VarChar(y)) => {
            lemma_numbers_differ(x, y);
        },
        (DataType::Char(x), DataType::Char(y)) => {
            lemma_numbers_differ(x, y);
        },
        (DataType::Binary(x), DataType::Binary(y)) => {
            lemma_numbers_differ(x, y);
        },
        (DataType::VarBinary(x), DataType::VarBinary(y)) => {
            lemma_numbers_differ(x, y);
        },
        (DataType::MySqlInt { unsigned: x, .. }, DataType::MySqlInt { unsigned: y, .. }) => {
            assert(sign_letter(x)[0] == sign_letter(y)[0] <==> x == y);
        },
        (DataType::MySqlFloat { unsigned: x }, DataType::MySqlFloat { unsigned: y }) => {
            assert(sign_letter(x)[0] == sign_letter(y)[0] <==> x == y);
        },
        (DataType::MySqlDouble { unsigned: x }, DataType::MySqlDouble { unsigned: y }) => {
            assert(sign_letter(x)[0] == sign_letter(y)[0] <==> x == y);
        },
        (DataType::MySqlText { size: x }, DataType::MySqlText { size: y }) => {
            assert(size_letter(x)[0] == size_letter(y)[0] <==> x == y);
        },
        (DataType::Blob { size: x }, DataType::Blob { size: y }) => {
            assert(size_letter(x)[0] == size_letter(y)[0] <==> x == y);
        },
        _ => {},
    }
    if same_type(a, b) {
        assert(type_parameters(a) == type_parameters(b));
        assert(type_code(a) =~= type_code(b));
    }
}

/// No other type has the code of a whole number or of a truth value.
pub proof fn lemma_plain_type_codes(data_type: DataType)
    ensures
        (type_code(data_type) == type_code(DataType::Int16)) == (data_type is Int16),
        (type_code(data_type) == type_code(DataType::Int32)) == (data_type is Int32),
        (type_code(data_type) == type_code(DataType::Int64)) == (data_type is Int64),
        (type_code(data_type) == type_code(DataType::Boolean)) == (data_type is Boolean),
{
    lemma_type_code_parts(data_type);
    lemma_type_code_parts(DataType::Int16);
    lemma_type_code_parts(DataType::Int32);
    lemma_type_code_parts(DataType::Int64);
    lemma_type_code_parts(DataType::Boolean);
}

fn push_optional(code: &mut String, number: Option<u32>)
    ensures
        final(code)@ == old(code)@ + optional_number(number),
{
    match number {
        Some(n) => push_decimal(code, n as u64),
        None => {
            assert(code@ =~= old(code)@ + optional_number(number));
        },
    }
}

fn push_sign(code: &mut String, unsigned: bool)
    ensures
        final(code)@ == old(code)@ + sign_letter(unsigned),
{
    if unsigned {
        code.push('u');
    } else {
        code.push('s');
    }
    assert(code@ =~= old(code)@ + sign_letter(unsigned));
}

fn push_size(code: &mut String, size: MySqlSize)
    ensures
        final(code)@ == old(code)@ + size_letter(size),
{
    match size {
        MySqlSize::Tiny => code.push('t'),
        MySqlSize::Regular => code.push('r'),
        MySqlSize::Medium => code.push('m'),
        MySqlSize::Long => code.push('l'),
    }
    assert(code@ =~= old(code)@ + size_letter(size));
}

fn letters_of(data_type: &DataType) -> (letters: (char, char))
    ensures
        letters == type_letters(*data_type),
{
    match data_type {
        DataType::MySqlInt { kind, .. } => match kind {
            MySqlIntKind::Tiny => ('m', 't'),
            MySqlIntKind::Small => ('m', 's'),
            MySqlIntKind::Medium => ('m', 'm'),
            MySqlIntKind::Int => ('m', 'i'),
            MySqlIntKind::Big => ('m', 'b'),
        },
        DataType::MySqlFloat { .. } => ('m', 'f'),
        DataType::MySqlDouble { .. } => ('m', 'd'),
        DataType::MySqlText { .. } => ('m', 'x'),
        DataType::Blob { .. } => ('m', 'z'),
        DataType::MySqlTime { .. } => ('m', 'h'),
        DataType::MySqlDateTime { .. } => ('m', 'a'),
        DataType::MySqlTimestamp { .. } => ('m', 'p'),
        DataType::Bit(_) => ('b', 't'),
        DataType::Year => ('y', 'r'),
        DataType::Int16 => ('i', '2'),
        DataType::Int32 => ('i', '4'),
        DataType::Int64 => ('i', '8'),
        DataType::Float32 => ('f', '4'),
        DataType::Float64 => ('f', '8'),
        DataType::Numeric { .. } => ('n', 'u'),
        DataType::Text => ('t', 'x'),
        DataType::VarChar(_) => ('v', 'c'),
        DataType::Char(_) => ('c', 'h'),
        DataType::Date => ('d', 'a'),
        DataType::Time => ('t', 'm'),
        DataType::TimeTz => ('t', 'z'),
        DataType::Interval => ('i', 'v'),
        DataType::Timestamp => ('t', 's'),
        DataType::TimestampTz => ('t', 'o'),
        DataType::Uuid => ('u', 'u'),
        DataType::Json => ('j', 's'),
        DataType::Jsonb => ('j', 'b'),
        DataType::Domain(_) => ('d', 'o'),
        DataType::EnumOf(_) => ('e', 'n'),
        DataType::SetOf(_) => ('s', 'e'),
        DataType::Geometry(_) => ('g', 'e'),
        DataType::Boolean => ('b', 'o'),
        DataType::Bytea => ('b', 'y'),
        DataType::Binary(_) => ('b', 'i'),
        DataType::VarBinary(_) => ('v', 'b'),
        DataType::Array(_) => ('a', 'r'),
    }
}

fn parse_optional(text: &[char]) -> (number: Option<Option<u32>>)
    ensures
        match number {
            Some(n) => text@ == optional_number(n),
            None => forall|n: Option<u32>| text@ != #[trigger] optional_number(n),
        },
{
    if text.len() == 0 {
        assert(text@ =~= optional_number(None));
        return Some(None);
    }
    match parse_decimal_u32(text) {
        Some(n) => Some(Some(n)),
        None => {
            assert forall|n: Option<u32>| text@ != #[trigger] optional_number(n) by {
                match n {
                    Some(m) => {
                        assert(text@ != decimal(m as nat));
                    },
                    None => {},
                }
            }
            None
        },
    }
}

fn parse_sign(text: &[char]) -> (unsigned: Option<bool>)
    ensures
        match unsigned {
            Some(u) => text@ == sign_letter(u),
            None => forall|u: bool| text@ != #[trigger] sign_letter(u),
        },
{
    if text.len() == 1 && text[0] == 'u' {
        assert(text@ =~= sign_letter(true));
        Some(true)
    } else if text.len() == 1 && text[0] == 's' {
        assert(text@ =~= sign_letter(false));
        Some(false)
    } else {
        None
    }
}

fn parse_size(text: &[char]) -> (size: Option<MySqlSize>)
    ensures
        match size {
            Some(s) => text@ == size_letter(s),
            None => forall|s: MySqlSize| text@ != #[trigger] size_letter(s),
        },
{
    if text.len() != 1 {
        return None;
    }
    let size = match text[0] {
        't' => MySqlSize::Tiny,
        'r' => MySqlSize::Regular,
        'm' => MySqlSize::Medium,
        'l' => MySqlSize::Long,
        _ => {
            return None;
        },
    };
    assert(text@ =~= size_letter(size));
    Some(size)
}

spec fn numeric_parameters(precision: Option<u32>, scale: Option<u32>) -> Seq<char> {
    optional_number(precision) + seq![','] + optional_number(scale)
}

fn parse_numeric(text: &[char]) -> (parameters: Option<(Option<u32>, Option<u32>)>)
    ensures
        match parameters {
            Some((p, s)) => text@ == numeric_parameters(p, s),
            None => forall|p: Option<u32>, s: Option<u32>|
                text@ != #[trigger] numeric_parameters(p, s),
        },
{
    let mut cut: usize = 0;
    while cut < text.len() && text[cut] != ','
        invariant
            cut <= text@.len(),
            forall|k: int| 0 <= k < cut ==> text@[k] != ',',
        decreases text@.len() - cut,
    {
        cut += 1;
    }
    proof {
        assert forall|p: Option<u32>, s: Option<u32>|
            text@ == #[trigger] numeric_parameters(p, s) implies cut < text@.len()
            && text@.subrange(0, cut as int) == optional_number(p) && text@.subrange(
            cut + 1,
            text@.len() as int,
        ) == optional_number(s) by {
            let len = optional_number(p).len() as int;
            if let Some(n) = p {
                lemma_decimal_shape(n as nat);
                assert(optional_number(p) == decimal(n as nat));
            }
            assert(text@[len] == ',');
            assert forall|k: int| 0 <= k < len implies text@[k] != ',' by {
                assert(text@[k] == optional_number(p)[k]);
            }
            assert(cut == len);
            assert(text@.subrange(0, cut as int) =~= optional_number(p));
            assert(text@.subrange(cut + 1, text@.len() as int) =~= optional_number(s));
        }
    }
    if cut == text.len() {
        return None;
    }
    let precision = parse_optional(vstd::slice::slice_subrange(text, 0, cut));
    let scale = parse_optional(vstd::slice::slice_subrange(text, cut + 1, text.len()));
    match (precision, scale) {
        (Some(p), Some(s)) => {
            assert(text@ =~= numeric_parameters(p, s));
            Some((p, s))
        },
        _ => None,
    }
}

impl DataType {
    /// The same type once more.
    pub fn copied(&self) -> (copy: DataType)
        ensures
            copy == *self,
        decreases self,
    {
        match self {
            DataType::MySqlInt { kind, unsigned } => DataType::MySqlInt {
                kind: *kind,
                unsigned: *unsigned,
            },
            DataType::MySqlFloat { unsigned } => DataType::MySqlFloat { unsigned: *unsigned },
            DataType::MySqlDouble { unsigned } => DataType::MySqlDouble { unsigned: *unsigned },
            DataType::MySqlText { size } => DataType::MySqlText { size: *size },
            DataType::Blob { size } => DataType::Blob { size: *size },
            DataType::MySqlTime { fraction } => DataType::MySqlTime { fraction: *fraction },
            DataType::MySqlDateTime { fraction } => DataType::MySqlDateTime { fraction: *fraction },
            DataType::MySqlTimestamp { fraction } => DataType::MySqlTimestamp {
                fraction: *fraction,
            },
            DataType::Bit(n) => DataType::Bit(*n),
            DataType::Year => DataType::Year,
            DataType::Int16 => DataType::Int16,
            DataType::Int32 => DataType::Int32,
            DataType::Int64 => DataType::Int64,
            DataType::Float32 => DataType::Float32,
            DataType::Float64 => DataType::Float64,
            DataType::Numeric { precision, scale } => DataType::Numeric {
                precision: *precision,
                scale: *scale,
            },
            DataType::Text => DataType::Text,
            DataType::VarChar(n) => DataType::VarChar(*n),
            DataType::Char(n) => DataType::Char(*n),
            DataType::Date => DataType::Date,
            DataType::Time => DataType::Time,
            DataType::TimeTz => DataType::TimeTz,
            DataType::Interval => DataType::Interval,
            DataType::Timestamp => DataType::Timestamp,
            DataType::TimestampTz => DataType::TimestampTz,
            DataType::Uuid => DataType::Uuid,
            DataType::Json => DataType::Json,
            DataType::Jsonb => DataType::Jsonb,
            DataType::Domain(name) => DataType::Domain(name.clone()),
            DataType::EnumOf(name) => DataType::EnumOf(name.clone()),
            DataType::SetOf(name) => DataType::SetOf(name.clone()),
            DataType::Geometry(name) => DataType::Geometry(name.clone()),
            DataType::Boolean => DataType::Boolean,
            DataType::Bytea => DataType::Bytea,
            DataType::Binary(n) => DataType::Binary(*n),
            DataType::VarBinary(n) => DataType::VarBinary(*n),
            DataType::Array(inner) => DataType::Array(Box::new(inner.copied())),
        }
    }

    /// Appends the catalog code of the type.
    fn push_code(&self, code: &mut String)
        ensures
            final(code)@ == old(code)@ + type_code(*self),
        decreases self,
    {
        let letters = letters_of(self);
        code.push(letters.0);
        code.push(letters.1);
        match self {
            DataType::MySqlInt { unsigned, .. } => push_sign(code, *unsigned),
            DataType::MySqlFloat { unsigned } => push_sign(code, *unsigned),
            DataType::MySqlDouble { unsigned } => push_sign(code, *unsigned),
            DataType::MySqlText { size } => push_size(code, *size),
            DataType::Blob { size } => push_size(code, *size),
            DataType::MySqlTime { fraction } => push_optional(code, *fraction),
            DataType::MySqlDateTime { fraction } => push_optional(code, *fraction),
            DataType::MySqlTimestamp { fraction } => push_optional(code, *fraction),
            DataType::Bit(n) => push_optional(code, *n),
            DataType::VarChar(n) => push_optional(code, *n),
            DataType::Char(n) => push_optional(code, *n),
            DataType::Binary(n) => push_optional(code, *n),
            DataType::VarBinary(n) => push_optional(code, *n),
            DataType::Numeric { precision, scale } => {
                push_optional(code, *precision);
                code.push(',');
                push_optional(code, *scale);
            },
            DataType::Domain(name) => code.push_str(name.as_str()),
            DataType::EnumOf(name) => code.push_str(name.as_str()),
            DataType::SetOf(name) => code.push_str(name.as_str()),
            DataType::Geometry(name) => code.push_str(name.as_str()),
            DataType::Array(inner) => inner.push_code(code),
            _ => {},
        }
        assert(code@ =~= old(code)@ + type_code(*self));
    }

    /// The code under which the catalog keeps the type.
    pub fn to_str(&self) -> (code: String)
        ensures
            code@ == type_code(*self),
    {
        let mut code = String::new();
        self.push_code(&mut code);
        assert(code@ =~= type_code(*self));
        code
    }

    /// Reads a catalog code: the type with that code, where there is one.
    pub fn from_code(code: &[char]) -> (data_type: Option<DataType>)
        ensures
            match data_type {
                Some(t) => type_code(t) == code@,
                None => forall|t: DataType| #[trigger] type_code(t) != code@,
            },
        decreases code@.len(),
    {
        proof {
            assert forall|t: DataType| #[trigger] type_code(t) == code@ implies code@.len() >= 2
                && type_letters(t) == (code@[0], code@[1]) && type_parameters(t) == code@.skip(
                2,
            ) by {
                lemma_type_code_parts(t);
            }
        }
        if code.len() < 2 {
            return None;
        }
        let rest = vstd::slice::slice_subrange(code, 2, code.len());
        assert(rest@ =~= code@.skip(2));
        assert(code@ =~= seq![code@[0], code@[1]] + rest@);
        let found: Option<DataType> = match (code[0], code[1]) {
            ('m', 't') => Self::mysql_int(MySqlIntKind::Tiny, rest),
            ('m', 's') => Self::mysql_int(MySqlIntKind::Small, rest),
            ('m', 'm') => Self::mysql_int(MySqlIntKind::Medium, rest),
            ('m', 'i') => Self::mysql_int(MySqlIntKind::Int, rest),
            ('m', 'b') => Self::mysql_int(MySqlIntKind::Big, rest),
            ('m', 'f') => match parse_sign(rest) {
                Some(unsigned) => Some(DataType::MySqlFloat { unsigned }),
                None => None,
            },
            ('m', 'd') => match parse_sign(rest) {
                Some(unsigned) => Some(DataType::MySqlDouble { unsigned }),
                None => None,
            },
            ('m', 'x') => match parse_size(rest) {
                Some(size) => Some(DataType::MySqlText { size }),
                None => None,
            },
            ('m', 'z') => match parse_size(rest) {
                Some(size) => Some(DataType::Blob { size }),
                None => None,
            },
            ('m', 'h') => match parse_optional(rest) {
                Some(fraction) => Some(DataType::MySqlTime { fraction }),
                None => None,
            },
            ('m', 'a') => match parse_optional(rest) {
                Some(fraction) => Some(DataType::MySqlDateTime { fraction }),
                None => None,
            },
            ('m', 'p') => match parse_optional(rest) {
                Some(fraction) => Some(DataType::MySqlTimestamp { fraction }),
                None => None,
            },
            ('b', 't') => match parse_optional(rest) {
                Some(n) => Some(DataType::Bit(n)),
                None => None,
            },
            ('v', 'c') => match parse_optional(rest) {
                Some(n) => Some(DataType::VarChar(n)),
                None => None,
            },
            ('c', 'h') => match parse_optional(rest) {
                Some(n) => Some(DataType::Char(n)),
                None => None,
            },
            ('b', 'i') => match parse_optional(rest) {
                Some(n) => Some(DataType::Binary(n)),
                None => None,
            },
            ('v', 'b') => match parse_optional(rest) {
                Some(n) => Some(DataType::VarBinary(n)),
                None => None,
            },
            ('n', 'u') => match parse_numeric(rest) {
                Some((precision, scale)) => Some(DataType::Numeric { precision, scale }),
                None => {
                    assert forall|t: DataType| #[trigger] type_code(t) != code@ by {
                        if let DataType::Numeric { precision, scale } = t {
                            assert(rest@ != numeric_parameters(precision, scale));
                        }
                    }
                    None
                },
            },
            ('d', 'o') => Some(DataType::Domain(string_of(rest))),
            ('e', 'n') => Some(DataType::EnumOf(string_of(rest))),
            ('s', 'e') => Some(DataType::SetOf(string_of(rest))),
            ('g', 'e') => Some(DataType::Geometry(string_of(rest))),
            ('a', 'r') => match Self::from_code(rest) {
                Some(inner) => Some(DataType::Array(Box::new(inner))),
                None => None,
            },
            _ => Self::plain_from_code(code),
        };
        proof {
            if found is Some {
                let t = found->0;
                if type_code(t) != code@ {
                    assert(type_letters(t) == (code@[0], code@[1]));
                    assert(type_parameters(t) == rest@);
                }
            } else {
                assert forall|t: DataType| #[trigger] type_code(t) != code@ by {
                    if type_code(t) == code@ {
                        assert(type_parameters(t) == rest@);
                        match t {
                            DataType::MySqlInt { unsigned, .. } => {
                                assert(rest@ == sign_letter(unsigned));
                            },
                            DataType::MySqlFloat { unsigned } => {
                                assert(rest@ == sign_letter(unsigned));
                            },
                            DataType::MySqlDouble { unsigned } => {
                                assert(rest@ == sign_letter(unsigned));
                            },
                            DataType::MySqlText { size } => {
                                assert(rest@ == size_letter(size));
                            },
                            DataType::Blob { size } => {
                                assert(rest@ == size_letter(size));
                            },
                            DataType::Array(inner) => {
                                assert(rest@ == type_code(*inner));
                            },
                            _ => {},
                        }
                    }
                }
            }
        }
        found
    }

    fn mysql_int(kind: MySqlIntKind, rest: &[char]) -> (data_type: Option<DataType>)
        ensures
            match data_type {
                Some(t) => t matches DataType::MySqlInt { kind: k, unsigned } && k == kind
                    && sign_letter(unsigned) == rest@,
                None => forall|u: bool| rest@ != #[trigger] sign_letter(u),
            },
    {
        match parse_sign(rest) {
            Some(unsigned) => Some(DataType::MySqlInt { kind, unsigned }),
            None => None,
        }
    }

    fn plain_from_code(code: &[char]) -> (data_type: Option<DataType>)
        requires
            code@.len() >= 2,
        ensures
            match data_type {
                Some(t) => type_code(t) == code@,
                None => forall|t: DataType|
                    #[trigger] type_code(t) == code@ ==> (t is MySqlInt || t is MySqlFloat
                        || t is MySqlDouble || t is MySqlText || t is Blob || t is MySqlTime
                        || t is MySqlDateTime || t is MySqlTimestamp || t is Bit || t is VarChar
                        || t is Char || t is Binary || t is VarBinary || t is Numeric || t is Domain
                        || t is EnumOf || t is SetOf || t is Geometry || t is Array),
            },
    {
        proof {
            assert forall|t: DataType| #[trigger] type_code(t) == code@ implies type_letters(t) == (
                code@[0],
                code@[1],
            ) && type_parameters(t) == code@.skip(2) by {
                lemma_type_code_parts(t);
            }
        }
        if code.len() != 2 {
            assert(code@.skip(2).len() > 0);
            return None;
        }
        assert(code@ =~= seq![code@[0], code@[1]] + Seq::<char>::empty());
        match (code[0], code[1]) {
            ('y', 'r') => Some(DataType::Year),
            ('i', '2') => Some(DataType::Int16),
            ('i', '4') => Some(DataType::Int32),
            ('i', '8') => Some(DataType::Int64),
            ('f', '4') => Some(DataType::Float32),
            ('f', '8') => Some(DataType::Float64),
            ('t', 'x') => Some(DataType::Text),
            ('d', 'a') => Some(DataType::Date),
            ('t', 'm') => Some(DataType::Time),
            ('t', 'z') => Some(DataType::TimeTz),
            ('i', 'v') => Some(DataType::Interval),
            ('t', 's') => Some(DataType::Timestamp),
            ('t', 'o') => Some(DataType::TimestampTz),
            ('u', 'u') => Some(DataType::Uuid),
            ('j', 's') => Some(DataType::Json),
            ('j', 'b') => Some(DataType::Jsonb),
            ('b', 'o') => Some(DataType::Boolean),
            ('b', 'y') => Some(DataType::Bytea),
            _ => None,
        }
    }
}

} // verus!
