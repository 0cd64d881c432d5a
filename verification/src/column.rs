//! Typed column data and its wire codec.
//!
//! A column's type is written on the wire as a type string in the ClickHouse
//! type grammar (`UInt32`, `FixedString(8)`, `Nullable(String)`,
//! `Array(UInt64)`, `DateTime('UTC')`); its data follows in a per-type
//! layout.  Floating-point columns carry raw IEEE-754 bit patterns, so the
//! codec moves them without any floating-point arithmetic; timezone names
//! are metadata carried in the type string.
use vstd::bytes::spec_u128_to_le_bytes;
use vstd::bytes::spec_u16_to_le_bytes;
use vstd::bytes::spec_u32_to_le_bytes;
use vstd::bytes::spec_u64_to_le_bytes;
use vstd::prelude::*;

use crate::binary::lemma_read_str_enc;
use crate::binary::Encoder;
use crate::errors::Error;
use crate::binary::lemma_subrange_sub;
use crate::binary::spec_read_str;
use crate::binary::spec_read_u128;
use crate::binary::spec_read_u16;
use crate::binary::spec_read_u32;
use crate::binary::spec_read_u64;
use crate::binary::spec_str_enc;
use crate::binary::ReadOutcome;

verus! {

// ---------------------------------------------------------------------------
// The column type grammar
// ---------------------------------------------------------------------------
/// A parsed column type.  `FixedStr` carries the fixed row width,
/// `DateTime` an optional timezone name, and the recursive variants wrap an
/// inner type.
#[derive(Debug)]
pub enum ColumnType {
    UInt8,
    UInt16,
    UInt32,
    UInt64,
    Int8,
    Int16,
    Int32,
    Int64,
    Float32,
    Float64,
    Str,
    FixedStr(u64),
    Date,
    DateTime(Option<Vec<u8>>),
    DateTime64(u64, Option<Vec<u8>>),
    Decimal(u64, u64),
    Enum8(Vec<(Vec<u8>, i8)>),
    Enum16(Vec<(Vec<u8>, i16)>),
    Nullable(Box<ColumnType>),
    Array(Box<ColumnType>),
    LowCardinality(Box<ColumnType>),
    Tuple(Box<TypeList>),
}

/// The element types of a tuple, at least one.
#[derive(Debug)]
pub enum TypeList {
    Last(Box<ColumnType>),
    Cons(Box<ColumnType>, Box<TypeList>),
}

/// Mathematical image of a [`ColumnType`].
pub enum TypeM {
    UInt8,
    UInt16,
    UInt32,
    UInt64,
    Int8,
    Int16,
    Int32,
    Int64,
    Float32,
    Float64,
    Str,
    FixedStr(nat),
    Date,
    DateTime(Option<Seq<u8>>),
    DateTime64(u64, Option<Seq<u8>>),
    Decimal(u64, u64),
    Enum8(Seq<(Seq<u8>, int)>),
    Enum16(Seq<(Seq<u8>, int)>),
    Nullable(Box<TypeM>),
    Array(Box<TypeM>),
    LowCardinality(Box<TypeM>),
    Tuple(Box<TypeListM>),
}

/// Mathematical image of a [`TypeList`].
pub enum TypeListM {
    Last(Box<TypeM>),
    Cons(Box<TypeM>, Box<TypeListM>),
}

/// Mathematical image of a column type.
pub open spec fn type_view(t: ColumnType) -> TypeM
    decreases t,
{
    match t {
        ColumnType::UInt8 => TypeM::UInt8,
        ColumnType::UInt16 => TypeM::UInt16,
        ColumnType::UInt32 => TypeM::UInt32,
        ColumnType::UInt64 => TypeM::UInt64,
        ColumnType::Int8 => TypeM::Int8,
        ColumnType::Int16 => TypeM::Int16,
        ColumnType::Int32 => TypeM::Int32,
        ColumnType::Int64 => TypeM::Int64,
        ColumnType::Float32 => TypeM::Float32,
        ColumnType::Float64 => TypeM::Float64,
        ColumnType::Str => TypeM::Str,
        ColumnType::FixedStr(n) => TypeM::FixedStr(n as nat),
        ColumnType::Date => TypeM::Date,
        ColumnType::DateTime(tz) => TypeM::DateTime(
            match tz {
                Option::Some(v) => Option::Some(v@),
                Option::None => Option::None,
            },
        ),
        ColumnType::DateTime64(p, tz) => TypeM::DateTime64(
            p,
            match tz {
                Option::Some(v) => Option::Some(v@),
                Option::None => Option::None,
            },
        ),
        ColumnType::Decimal(p, sc) => TypeM::Decimal(p, sc),
        ColumnType::Enum8(es) => TypeM::Enum8(
            es@.map_values(|e: (Vec<u8>, i8)| (e.0@, e.1 as int)),
        ),
        ColumnType::Enum16(es) => TypeM::Enum16(
            es@.map_values(|e: (Vec<u8>, i16)| (e.0@, e.1 as int)),
        ),
        ColumnType::Nullable(inner) => TypeM::Nullable(Box::new(type_view(*inner))),
        ColumnType::Array(inner) => TypeM::Array(Box::new(type_view(*inner))),
        ColumnType::LowCardinality(inner) => TypeM::LowCardinality(Box::new(type_view(*inner))),
        ColumnType::Tuple(elems) => TypeM::Tuple(Box::new(type_list_view(*elems))),
    }
}

/// Mathematical image of a tuple's element types.
pub open spec fn type_list_view(l: TypeList) -> TypeListM
    decreases l,
{
    match l {
        TypeList::Last(t) => TypeListM::Last(Box::new(type_view(*t))),
        TypeList::Cons(t, rest) => TypeListM::Cons(
            Box::new(type_view(*t)),
            Box::new(type_list_view(*rest)),
        ),
    }
}

impl View for ColumnType {
    type V = TypeM;

    open spec fn view(&self) -> TypeM {
        type_view(*self)
    }
}

impl TypeM {
    /// A type the codec can print and re-parse: fixed widths are positive
    /// and parameters fit their wire form.
    pub open spec fn wf(self) -> bool
        decreases self,
    {
        match self {
            TypeM::FixedStr(n) => 1 <= n <= u64::MAX,
            TypeM::DateTime(tz) => match tz {
                Option::Some(z) => z.len() <= u64::MAX && (forall|i: int|
                    0 <= i < z.len() ==> (#[trigger] z[i]) != 40 && z[i] != 41),
                Option::None => true,
            },
            TypeM::DateTime64(p, tz) => p <= 9 && (match tz {
                Option::Some(z) => z.len() <= u64::MAX && (forall|i: int|
                    0 <= i < z.len() ==> (#[trigger] z[i]) != 40 && z[i] != 41),
                Option::None => true,
            }),
            TypeM::Decimal(p, sc) => 1 <= p <= 38 && sc <= p,
            TypeM::Enum8(es) => spec_enum_entries_wf(es, -128, 127),
            TypeM::Enum16(es) => spec_enum_entries_wf(es, -32768, 32767),
            TypeM::Nullable(inner) => (*inner).wf(),
            TypeM::Array(inner) => (*inner).wf(),
            TypeM::LowCardinality(inner) => (*inner).wf(),
            TypeM::Tuple(elems) => type_list_wf(*elems),
            _ => true,
        }
    }
}

/// Every element type of a tuple is well formed.
pub open spec fn type_list_wf(l: TypeListM) -> bool
    decreases l,
{
    match l {
        TypeListM::Last(t) => (*t).wf(),
        TypeListM::Cons(t, rest) => (*t).wf() && type_list_wf(*rest),
    }
}

// ---------------------------------------------------------------------------
// Column data
// ---------------------------------------------------------------------------
/// The cells of one column.  Float variants hold IEEE-754 bit patterns;
/// `Nullable` holds one null-flag byte per row beside the inner cells;
/// `Array` holds cumulative row offsets beside the flattened inner cells.
#[derive(Debug)]
pub enum ColumnData {
    UInt8(Vec<u8>),
    UInt16(Vec<u16>),
    UInt32(Vec<u32>),
    UInt64(Vec<u64>),
    Int8(Vec<i8>),
    Int16(Vec<i16>),
    Int32(Vec<i32>),
    Int64(Vec<i64>),
    Float32(Vec<u32>),
    Float64(Vec<u64>),
    Str(Vec<Vec<u8>>),
    FixedStr(u64, Vec<Vec<u8>>),
    Date(Vec<u16>),
    DateTime(Option<Vec<u8>>, Vec<u32>),
    DateTime64(u64, Option<Vec<u8>>, Vec<i64>),
    Decimal(u64, u64, Vec<i128>),
    Enum8(Vec<(Vec<u8>, i8)>, Vec<i8>),
    Enum16(Vec<(Vec<u8>, i16)>, Vec<i16>),
    Nullable(Vec<u8>, Box<ColumnData>),
    Array(Vec<u64>, Box<ColumnData>),
    LowCardinality(Box<ColumnData>, Vec<u64>),
    Tuple(Box<DataList>),
}

/// The element columns of a tuple, at least one.
#[derive(Debug)]
pub enum DataList {
    Last(Box<ColumnData>),
    Cons(Box<ColumnData>, Box<DataList>),
}

/// Mathematical image of a [`ColumnData`].
pub enum DataM {
    UInt8(Seq<u8>),
    UInt16(Seq<u16>),
    UInt32(Seq<u32>),
    UInt64(Seq<u64>),
    Int8(Seq<i8>),
    Int16(Seq<i16>),
    Int32(Seq<i32>),
    Int64(Seq<i64>),
    Float32(Seq<u32>),
    Float64(Seq<u64>),
    Str(Seq<Seq<u8>>),
    FixedStr(nat, Seq<Seq<u8>>),
    Date(Seq<u16>),
    DateTime(Option<Seq<u8>>, Seq<u32>),
    DateTime64(u64, Option<Seq<u8>>, Seq<i64>),
    Decimal(u64, u64, Seq<i128>),
    Enum8(Seq<(Seq<u8>, int)>, Seq<i8>),
    Enum16(Seq<(Seq<u8>, int)>, Seq<i16>),
    Nullable(Seq<u8>, Box<DataM>),
    Array(Seq<u64>, Box<DataM>),
    LowCardinality(Box<DataM>, Seq<u64>),
    Tuple(Box<DataListM>),
}

/// Mathematical image of a [`DataList`].
pub enum DataListM {
    Last(Box<DataM>),
    Cons(Box<DataM>, Box<DataListM>),
}

/// Mathematical image of column data.
pub open spec fn data_view(d: ColumnData) -> DataM
    decreases d,
{
    match d {
        ColumnData::UInt8(v) => DataM::UInt8(v@),
        ColumnData::UInt16(v) => DataM::UInt16(v@),
        ColumnData::UInt32(v) => DataM::UInt32(v@),
        ColumnData::UInt64(v) => DataM::UInt64(v@),
        ColumnData::Int8(v) => DataM::Int8(v@),
        ColumnData::Int16(v) => DataM::Int16(v@),
        ColumnData::Int32(v) => DataM::Int32(v@),
        ColumnData::Int64(v) => DataM::Int64(v@),
        ColumnData::Float32(v) => DataM::Float32(v@),
        ColumnData::Float64(v) => DataM::Float64(v@),
        ColumnData::Str(v) => DataM::Str(v@.map_values(|x: Vec<u8>| x@)),
        ColumnData::FixedStr(n, v) => DataM::FixedStr(n as nat, v@.map_values(|x: Vec<u8>| x@)),
        ColumnData::Date(v) => DataM::Date(v@),
        ColumnData::DateTime(tz, v) => DataM::DateTime(
            match tz {
                Option::Some(z) => Option::Some(z@),
                Option::None => Option::None,
            },
            v@,
        ),
        ColumnData::DateTime64(p, tz, v) => DataM::DateTime64(
            p,
            match tz {
                Option::Some(z) => Option::Some(z@),
                Option::None => Option::None,
            },
            v@,
        ),
        ColumnData::Decimal(p, sc, v) => DataM::Decimal(p, sc, v@),
        ColumnData::Enum8(es, v) => DataM::Enum8(
            es@.map_values(|e: (Vec<u8>, i8)| (e.0@, e.1 as int)),
            v@,
        ),
        ColumnData::Enum16(es, v) => DataM::Enum16(
            es@.map_values(|e: (Vec<u8>, i16)| (e.0@, e.1 as int)),
            v@,
        ),
        ColumnData::Nullable(flags, inner) => DataM::Nullable(flags@, Box::new(data_view(*inner))),
        ColumnData::Array(offsets, inner) => DataM::Array(offsets@, Box::new(data_view(*inner))),
        ColumnData::LowCardinality(dict, keys) => DataM::LowCardinality(
            Box::new(data_view(*dict)),
            keys@,
        ),
        ColumnData::Tuple(elems) => DataM::Tuple(Box::new(data_list_view(*elems))),
    }
}

/// Mathematical image of a tuple's element columns.
pub open spec fn data_list_view(l: DataList) -> DataListM
    decreases l,
{
    match l {
        DataList::Last(d) => DataListM::Last(Box::new(data_view(*d))),
        DataList::Cons(d, rest) => DataListM::Cons(
            Box::new(data_view(*d)),
            Box::new(data_list_view(*rest)),
        ),
    }
}

impl View for ColumnData {
    type V = DataM;

    open spec fn view(&self) -> DataM {
        data_view(*self)
    }
}

impl DataM {
    /// Number of rows this data holds.
    pub open spec fn rows(self) -> nat
        decreases self,
    {
        match self {
            DataM::UInt8(v) => v.len(),
            DataM::UInt16(v) => v.len(),
            DataM::UInt32(v) => v.len(),
            DataM::UInt64(v) => v.len(),
            DataM::Int8(v) => v.len(),
            DataM::Int16(v) => v.len(),
            DataM::Int32(v) => v.len(),
            DataM::Int64(v) => v.len(),
            DataM::Float32(v) => v.len(),
            DataM::Float64(v) => v.len(),
            DataM::Str(v) => v.len(),
            DataM::FixedStr(_, v) => v.len(),
            DataM::Date(v) => v.len(),
            DataM::DateTime(_, v) => v.len(),
            DataM::DateTime64(_, _, v) => v.len(),
            DataM::Decimal(_, _, v) => v.len(),
            DataM::Enum8(_, v) => v.len(),
            DataM::Enum16(_, v) => v.len(),
            DataM::Nullable(flags, _) => flags.len(),
            DataM::Array(offsets, _) => offsets.len(),
            DataM::LowCardinality(_, keys) => keys.len(),
            DataM::Tuple(elems) => match *elems {
                DataListM::Last(d) => (*d).rows(),
                DataListM::Cons(d, _) => (*d).rows(),
            },
        }
    }

    /// The column type this data belongs to.
    pub open spec fn typ(self) -> TypeM
        decreases self,
    {
        match self {
            DataM::UInt8(_) => TypeM::UInt8,
            DataM::UInt16(_) => TypeM::UInt16,
            DataM::UInt32(_) => TypeM::UInt32,
            DataM::UInt64(_) => TypeM::UInt64,
            DataM::Int8(_) => TypeM::Int8,
            DataM::Int16(_) => TypeM::Int16,
            DataM::Int32(_) => TypeM::Int32,
            DataM::Int64(_) => TypeM::Int64,
            DataM::Float32(_) => TypeM::Float32,
            DataM::Float64(_) => TypeM::Float64,
            DataM::Str(_) => TypeM::Str,
            DataM::FixedStr(n, _) => TypeM::FixedStr(n),
            DataM::Date(_) => TypeM::Date,
            DataM::DateTime(tz, _) => TypeM::DateTime(tz),
            DataM::DateTime64(p, tz, _) => TypeM::DateTime64(p, tz),
            DataM::Decimal(p, sc, _) => TypeM::Decimal(p, sc),
            DataM::Enum8(es, _) => TypeM::Enum8(es),
            DataM::Enum16(es, _) => TypeM::Enum16(es),
            DataM::Nullable(_, inner) => TypeM::Nullable(Box::new((*inner).typ())),
            DataM::Array(_, inner) => TypeM::Array(Box::new((*inner).typ())),
            DataM::LowCardinality(dict, _) => TypeM::LowCardinality(Box::new((*dict).typ())),
            DataM::Tuple(elems) => TypeM::Tuple(Box::new(data_list_typ(*elems))),
        }
    }

    /// Well-formed column data: lengths fit the wire, fixed strings have
    /// exactly their declared width, null flags and array offsets agree
    /// with the inner data.
    pub open spec fn wf(self) -> bool
        decreases self,
    {
        match self {
            DataM::UInt8(v) => v.len() <= u64::MAX,
            DataM::UInt16(v) => v.len() <= u64::MAX,
            DataM::UInt32(v) => v.len() <= u64::MAX,
            DataM::UInt64(v) => v.len() <= u64::MAX,
            DataM::Int8(v) => v.len() <= u64::MAX,
            DataM::Int16(v) => v.len() <= u64::MAX,
            DataM::Int32(v) => v.len() <= u64::MAX,
            DataM::Int64(v) => v.len() <= u64::MAX,
            DataM::Float32(v) => v.len() <= u64::MAX,
            DataM::Float64(v) => v.len() <= u64::MAX,
            DataM::Str(v) => v.len() <= u64::MAX && (forall|i: int|
                0 <= i < v.len() ==> #[trigger] v[i].len() <= u64::MAX),
            DataM::FixedStr(n, v) => {
                &&& 1 <= n <= u64::MAX
                &&& v.len() <= u64::MAX
                &&& (forall|i: int| 0 <= i < v.len() ==> #[trigger] v[i].len() == n)
            },
            DataM::Date(v) => v.len() <= u64::MAX,
            DataM::DateTime(tz, v) => v.len() <= u64::MAX && (match tz {
                Option::Some(z) => z.len() <= u64::MAX,
                Option::None => true,
            }),
            DataM::DateTime64(p, tz, v) => p <= 9 && v.len() <= u64::MAX && (match tz {
                Option::Some(z) => z.len() <= u64::MAX,
                Option::None => true,
            }),
            DataM::Decimal(p, sc, v) => {
                &&& 1 <= p <= 38
                &&& sc <= p
                &&& v.len() <= u64::MAX
                &&& (p <= 9 ==> (forall|i: int|
                    0 <= i < v.len() ==> -0x80000000 <= #[trigger] v[i] < 0x80000000))
                &&& (9 < p <= 18 ==> (forall|i: int|
                    0 <= i < v.len() ==> -0x8000000000000000 <= #[trigger] v[i]
                        < 0x8000000000000000))
            },
            DataM::Enum8(_, v) => v.len() <= u64::MAX,
            DataM::Enum16(_, v) => v.len() <= u64::MAX,
            DataM::Nullable(flags, inner) => {
                &&& flags.len() <= u64::MAX
                &&& flags.len() == (*inner).rows()
                &&& (*inner).wf()
            },
            DataM::Array(offsets, inner) => {
                &&& offsets.len() <= u64::MAX
                &&& (forall|i: int, j: int|
                    0 <= i <= j < offsets.len() ==> #[trigger] offsets[i] <= #[trigger] offsets[j])
                &&& (if offsets.len() == 0 {
                    (*inner).rows() == 0
                } else {
                    offsets[offsets.len() - 1] == (*inner).rows()
                })
                &&& (*inner).wf()
            },
            DataM::LowCardinality(dict, keys) => {
                &&& keys.len() <= u64::MAX
                &&& (forall|i: int| 0 <= i < keys.len() ==> #[trigger] keys[i] < (*dict).rows())
                &&& (*dict).wf()
            },
            DataM::Tuple(elems) => data_list_wf(*elems, self.rows()),
        }
    }
}

/// The element types of a tuple's columns.
pub open spec fn data_list_typ(l: DataListM) -> TypeListM
    decreases l,
{
    match l {
        DataListM::Last(d) => TypeListM::Last(Box::new((*d).typ())),
        DataListM::Cons(d, rest) => TypeListM::Cons(
            Box::new((*d).typ()),
            Box::new(data_list_typ(*rest)),
        ),
    }
}

/// Every element column of a tuple is well formed and carries `n` rows.
pub open spec fn data_list_wf(l: DataListM, n: nat) -> bool
    decreases l,
{
    match l {
        DataListM::Last(d) => (*d).wf() && (*d).rows() == n,
        DataListM::Cons(d, rest) => (*d).wf() && (*d).rows() == n && data_list_wf(*rest, n),
    }
}

// ---------------------------------------------------------------------------
// Element-sequence encodings
// ---------------------------------------------------------------------------
/// Little-endian encoding of a sequence of `u16` cells.
pub open spec fn enc_u16s(vs: Seq<u16>) -> Seq<u8>
    decreases vs.len(),
{
    if vs.len() == 0 {
        Seq::<u8>::empty()
    } else {
        spec_u16_to_le_bytes(vs[0]) + enc_u16s(vs.drop_first())
    }
}

/// Little-endian encoding of a sequence of `u32` cells.
pub open spec fn enc_u32s(vs: Seq<u32>) -> Seq<u8>
    decreases vs.len(),
{
    if vs.len() == 0 {
        Seq::<u8>::empty()
    } else {
        spec_u32_to_le_bytes(vs[0]) + enc_u32s(vs.drop_first())
    }
}

/// Little-endian encoding of a sequence of `u64` cells.
pub open spec fn enc_u64s(vs: Seq<u64>) -> Seq<u8>
    decreases vs.len(),
{
    if vs.len() == 0 {
        Seq::<u8>::empty()
    } else {
        spec_u64_to_le_bytes(vs[0]) + enc_u64s(vs.drop_first())
    }
}

/// Little-endian encoding of a sequence of `u128` cells.
pub open spec fn enc_u128s(vs: Seq<u128>) -> Seq<u8>
    decreases vs.len(),
{
    if vs.len() == 0 {
        Seq::<u8>::empty()
    } else {
        spec_u128_to_le_bytes(vs[0]) + enc_u128s(vs.drop_first())
    }
}

/// Encoding of a sequence of length-prefixed strings.
pub open spec fn enc_strs(vs: Seq<Seq<u8>>) -> Seq<u8>
    decreases vs.len(),
{
    if vs.len() == 0 {
        Seq::<u8>::empty()
    } else {
        spec_str_enc(vs[0]) + enc_strs(vs.drop_first())
    }
}

/// Encoding of a sequence of fixed-width strings: their bytes back to back.
pub open spec fn enc_fixed_strs(vs: Seq<Seq<u8>>) -> Seq<u8>
    decreases vs.len(),
{
    if vs.len() == 0 {
        Seq::<u8>::empty()
    } else {
        vs[0] + enc_fixed_strs(vs.drop_first())
    }
}

/// Appending one `u16` cell appends its bytes.
pub proof fn lemma_enc_u16s_push(vs: Seq<u16>, x: u16)
    ensures
        enc_u16s(vs.push(x)) == enc_u16s(vs) + spec_u16_to_le_bytes(x),
    decreases vs.len(),
{
    if vs.len() == 0 {
        assert(vs.push(x)[0] == x);
        assert(vs.push(x).drop_first() =~= vs);
        assert(enc_u16s(vs.push(x)) =~= enc_u16s(vs) + spec_u16_to_le_bytes(x));
    } else {
        assert(vs.push(x).drop_first() =~= vs.drop_first().push(x));
        lemma_enc_u16s_push(vs.drop_first(), x);
        assert(vs.push(x)[0] == vs[0]);
        assert(enc_u16s(vs.push(x)) =~= enc_u16s(vs) + spec_u16_to_le_bytes(x));
    }
}

/// Appending one `u32` cell appends its bytes.
pub proof fn lemma_enc_u32s_push(vs: Seq<u32>, x: u32)
    ensures
        enc_u32s(vs.push(x)) == enc_u32s(vs) + spec_u32_to_le_bytes(x),
    decreases vs.len(),
{
    if vs.len() == 0 {
        assert(vs.push(x)[0] == x);
        assert(vs.push(x).drop_first() =~= vs);
        assert(enc_u32s(vs.push(x)) =~= enc_u32s(vs) + spec_u32_to_le_bytes(x));
    } else {
        assert(vs.push(x).drop_first() =~= vs.drop_first().push(x));
        lemma_enc_u32s_push(vs.drop_first(), x);
        assert(vs.push(x)[0] == vs[0]);
        assert(enc_u32s(vs.push(x)) =~= enc_u32s(vs) + spec_u32_to_le_bytes(x));
    }
}

/// Appending one `u64` cell appends its bytes.
pub proof fn lemma_enc_u64s_push(vs: Seq<u64>, x: u64)
    ensures
        enc_u64s(vs.push(x)) == enc_u64s(vs) + spec_u64_to_le_bytes(x),
    decreases vs.len(),
{
    if vs.len() == 0 {
        assert(vs.push(x)[0] == x);
        assert(vs.push(x).drop_first() =~= vs);
        assert(enc_u64s(vs.push(x)) =~= enc_u64s(vs) + spec_u64_to_le_bytes(x));
    } else {
        assert(vs.push(x).drop_first() =~= vs.drop_first().push(x));
        lemma_enc_u64s_push(vs.drop_first(), x);
        assert(vs.push(x)[0] == vs[0]);
        assert(enc_u64s(vs.push(x)) =~= enc_u64s(vs) + spec_u64_to_le_bytes(x));
    }
}

/// Appending one `u128` cell appends its bytes.
pub proof fn lemma_enc_u128s_push(vs: Seq<u128>, x: u128)
    ensures
        enc_u128s(vs.push(x)) == enc_u128s(vs) + spec_u128_to_le_bytes(x),
    decreases vs.len(),
{
    if vs.len() == 0 {
        assert(vs.push(x)[0] == x);
        assert(vs.push(x).drop_first() =~= vs);
        assert(enc_u128s(vs.push(x)) =~= enc_u128s(vs) + spec_u128_to_le_bytes(x));
    } else {
        assert(vs.push(x).drop_first() =~= vs.drop_first().push(x));
        lemma_enc_u128s_push(vs.drop_first(), x);
        assert(vs.push(x)[0] == vs[0]);
        assert(enc_u128s(vs.push(x)) =~= enc_u128s(vs) + spec_u128_to_le_bytes(x));
    }
}

/// Appending one string cell appends its encoding.
pub proof fn lemma_enc_strs_push(vs: Seq<Seq<u8>>, x: Seq<u8>)
    ensures
        enc_strs(vs.push(x)) == enc_strs(vs) + spec_str_enc(x),
    decreases vs.len(),
{
    if vs.len() == 0 {
        assert(vs.push(x)[0] == x);
        assert(vs.push(x).drop_first() =~= vs);
        assert(enc_strs(vs.push(x)) =~= enc_strs(vs) + spec_str_enc(x));
    } else {
        assert(vs.push(x).drop_first() =~= vs.drop_first().push(x));
        lemma_enc_strs_push(vs.drop_first(), x);
        assert(vs.push(x)[0] == vs[0]);
        assert(enc_strs(vs.push(x)) =~= enc_strs(vs) + spec_str_enc(x));
    }
}

/// Appending one fixed-width cell appends its raw bytes.
pub proof fn lemma_enc_fixed_strs_push(vs: Seq<Seq<u8>>, x: Seq<u8>)
    ensures
        enc_fixed_strs(vs.push(x)) == enc_fixed_strs(vs) + x,
    decreases vs.len(),
{
    if vs.len() == 0 {
        assert(vs.push(x)[0] == x);
        assert(vs.push(x).drop_first() =~= vs);
        assert(enc_fixed_strs(vs.push(x)) =~= enc_fixed_strs(vs) + x);
    } else {
        assert(vs.push(x).drop_first() =~= vs.drop_first().push(x));
        lemma_enc_fixed_strs_push(vs.drop_first(), x);
        assert(vs.push(x)[0] == vs[0]);
        assert(enc_fixed_strs(vs.push(x)) =~= enc_fixed_strs(vs) + x);
    }
}

// ---------------------------------------------------------------------------
// Element-sequence readers
// ---------------------------------------------------------------------------
/// Reader for `n` raw bytes.
pub open spec fn spec_read_u8s(s: Seq<u8>, pos: int, n: nat) -> ReadOutcome<Seq<u8>> {
    if 0 <= pos && pos + n <= s.len() {
        ReadOutcome::Val(s.subrange(pos, pos + n), n as int)
    } else {
        ReadOutcome::Short
    }
}

/// Reader for `n` little-endian `u16` cells.
pub open spec fn spec_read_u16s(s: Seq<u8>, pos: int, n: nat) -> ReadOutcome<Seq<u16>>
    decreases n,
{
    if n == 0 {
        ReadOutcome::Val(Seq::<u16>::empty(), 0)
    } else {
        match spec_read_u16(s, pos) {
            ReadOutcome::Val(v, k) => match spec_read_u16s(s, pos + k, (n - 1) as nat) {
                ReadOutcome::Val(rest, m) => ReadOutcome::Val(seq![v] + rest, k + m),
                o => o,
            },
            o => o.pass(),
        }
    }
}

/// Reader for `n` little-endian `u32` cells.
pub open spec fn spec_read_u32s(s: Seq<u8>, pos: int, n: nat) -> ReadOutcome<Seq<u32>>
    decreases n,
{
    if n == 0 {
        ReadOutcome::Val(Seq::<u32>::empty(), 0)
    } else {
        match spec_read_u32(s, pos) {
            ReadOutcome::Val(v, k) => match spec_read_u32s(s, pos + k, (n - 1) as nat) {
                ReadOutcome::Val(rest, m) => ReadOutcome::Val(seq![v] + rest, k + m),
                o => o,
            },
            o => o.pass(),
        }
    }
}

/// Reader for `n` little-endian `u64` cells.
pub open spec fn spec_read_u64s(s: Seq<u8>, pos: int, n: nat) -> ReadOutcome<Seq<u64>>
    decreases n,
{
    if n == 0 {
        ReadOutcome::Val(Seq::<u64>::empty(), 0)
    } else {
        match spec_read_u64(s, pos) {
            ReadOutcome::Val(v, k) => match spec_read_u64s(s, pos + k, (n - 1) as nat) {
                ReadOutcome::Val(rest, m) => ReadOutcome::Val(seq![v] + rest, k + m),
                o => o,
            },
            o => o.pass(),
        }
    }
}

/// Reader for `n` little-endian `u128` cells.
pub open spec fn spec_read_u128s(s: Seq<u8>, pos: int, n: nat) -> ReadOutcome<Seq<u128>>
    decreases n,
{
    if n == 0 {
        ReadOutcome::Val(Seq::<u128>::empty(), 0)
    } else {
        match spec_read_u128(s, pos) {
            ReadOutcome::Val(v, k) => match spec_read_u128s(s, pos + k, (n - 1) as nat) {
                ReadOutcome::Val(rest, m) => ReadOutcome::Val(seq![v] + rest, k + m),
                o => o,
            },
            o => o.pass(),
        }
    }
}

/// Reader for `n` length-prefixed strings.
pub open spec fn spec_read_strs(s: Seq<u8>, pos: int, n: nat) -> ReadOutcome<Seq<Seq<u8>>>
    decreases n,
{
    if n == 0 {
        ReadOutcome::Val(Seq::<Seq<u8>>::empty(), 0)
    } else {
        match spec_read_str(s, pos) {
            ReadOutcome::Val(v, k) => match spec_read_strs(s, pos + k, (n - 1) as nat) {
                ReadOutcome::Val(rest, m) => ReadOutcome::Val(seq![v] + rest, k + m),
                o => o,
            },
            o => o.pass(),
        }
    }
}

/// Reader for `n` fixed-width strings of width `w`.
pub open spec fn spec_read_fixed_strs(s: Seq<u8>, pos: int, n: nat, w: nat) -> ReadOutcome<
    Seq<Seq<u8>>,
>
    decreases n,
{
    if n == 0 {
        ReadOutcome::Val(Seq::<Seq<u8>>::empty(), 0)
    } else if 0 <= pos && pos + w <= s.len() {
        match spec_read_fixed_strs(s, pos + w, (n - 1) as nat, w) {
            ReadOutcome::Val(rest, m) => ReadOutcome::Val(
                seq![s.subrange(pos, pos + w)] + rest,
                w + m,
            ),
            o => o,
        }
    } else {
        ReadOutcome::Short
    }
}

/// Round trip for raw byte cells.
pub proof fn lemma_read_u8s_enc(s: Seq<u8>, pos: int, vs: Seq<u8>)
    requires
        0 <= pos,
        pos + vs.len() <= s.len(),
        s.subrange(pos, pos + vs.len() as int) == vs,
    ensures
        spec_read_u8s(s, pos, vs.len()) == ReadOutcome::<Seq<u8>>::Val(vs, vs.len() as int),
{
}

/// Round trip for `u16` cells.
pub proof fn lemma_read_u16s_enc(s: Seq<u8>, pos: int, vs: Seq<u16>)
    requires
        0 <= pos,
        pos + enc_u16s(vs).len() <= s.len(),
        s.subrange(pos, pos + enc_u16s(vs).len() as int) == enc_u16s(vs),
    ensures
        spec_read_u16s(s, pos, vs.len()) == ReadOutcome::<Seq<u16>>::Val(
            vs,
            enc_u16s(vs).len() as int,
        ),
    decreases vs.len(),
{
    if vs.len() > 0 {
        let whole = enc_u16s(vs);
        let e0 = spec_u16_to_le_bytes(vs[0]);
        let et = enc_u16s(vs.drop_first());
        assert(e0.len() == 2 && vstd::bytes::spec_u16_from_le_bytes(e0) == vs[0]) by {
            vstd::bytes::lemma_auto_spec_u16_to_from_le_bytes();
        }
        assert(whole.subrange(0, 2) =~= e0);
        lemma_subrange_sub(s, pos, 0, 2, whole);
        crate::binary::lemma_read_u16_enc(s, pos, vs[0]);
        assert(whole.subrange(2, whole.len() as int) =~= et);
        lemma_subrange_sub(s, pos, 2, et.len() as int, whole);
        lemma_read_u16s_enc(s, pos + 2, vs.drop_first());
        assert(seq![vs[0]] + vs.drop_first() =~= vs);
    } else {
        assert(vs =~= Seq::<u16>::empty());
    }
}

/// Round trip for `u32` cells.
pub proof fn lemma_read_u32s_enc(s: Seq<u8>, pos: int, vs: Seq<u32>)
    requires
        0 <= pos,
        pos + enc_u32s(vs).len() <= s.len(),
        s.subrange(pos, pos + enc_u32s(vs).len() as int) == enc_u32s(vs),
    ensures
        spec_read_u32s(s, pos, vs.len()) == ReadOutcome::<Seq<u32>>::Val(
            vs,
            enc_u32s(vs).len() as int,
        ),
    decreases vs.len(),
{
    if vs.len() > 0 {
        let whole = enc_u32s(vs);
        let e0 = spec_u32_to_le_bytes(vs[0]);
        let et = enc_u32s(vs.drop_first());
        assert(e0.len() == 4 && vstd::bytes::spec_u32_from_le_bytes(e0) == vs[0]) by {
            vstd::bytes::lemma_auto_spec_u32_to_from_le_bytes();
        }
        assert(whole.subrange(0, 4) =~= e0);
        lemma_subrange_sub(s, pos, 0, 4, whole);
        crate::binary::lemma_read_u32_enc(s, pos, vs[0]);
        assert(whole.subrange(4, whole.len() as int) =~= et);
        lemma_subrange_sub(s, pos, 4, et.len() as int, whole);
        lemma_read_u32s_enc(s, pos + 4, vs.drop_first());
        assert(seq![vs[0]] + vs.drop_first() =~= vs);
    } else {
        assert(vs =~= Seq::<u32>::empty());
    }
}

/// Round trip for `u64` cells.
pub proof fn lemma_read_u64s_enc(s: Seq<u8>, pos: int, vs: Seq<u64>)
    requires
        0 <= pos,
        pos + enc_u64s(vs).len() <= s.len(),
        s.subrange(pos, pos + enc_u64s(vs).len() as int) == enc_u64s(vs),
    ensures
        spec_read_u64s(s, pos, vs.len()) == ReadOutcome::<Seq<u64>>::Val(
            vs,
            enc_u64s(vs).len() as int,
        ),
    decreases vs.len(),
{
    if vs.len() > 0 {
        let whole = enc_u64s(vs);
        let e0 = spec_u64_to_le_bytes(vs[0]);
        let et = enc_u64s(vs.drop_first());
        assert(e0.len() == 8 && vstd::bytes::spec_u64_from_le_bytes(e0) == vs[0]) by {
            vstd::bytes::lemma_auto_spec_u64_to_from_le_bytes();
        }
        assert(whole.subrange(0, 8) =~= e0);
        lemma_subrange_sub(s, pos, 0, 8, whole);
        crate::binary::lemma_read_u64_enc(s, pos, vs[0]);
        assert(whole.subrange(8, whole.len() as int) =~= et);
        lemma_subrange_sub(s, pos, 8, et.len() as int, whole);
        lemma_read_u64s_enc(s, pos + 8, vs.drop_first());
        assert(seq![vs[0]] + vs.drop_first() =~= vs);
    } else {
        assert(vs =~= Seq::<u64>::empty());
    }
}

/// Round trip for `u128` cells.
pub proof fn lemma_read_u128s_enc(s: Seq<u8>, pos: int, vs: Seq<u128>)
    requires
        0 <= pos,
        pos + enc_u128s(vs).len() <= s.len(),
        s.subrange(pos, pos + enc_u128s(vs).len() as int) == enc_u128s(vs),
    ensures
        spec_read_u128s(s, pos, vs.len()) == ReadOutcome::<Seq<u128>>::Val(
            vs,
            enc_u128s(vs).len() as int,
        ),
    decreases vs.len(),
{
    if vs.len() > 0 {
        let whole = enc_u128s(vs);
        let e0 = spec_u128_to_le_bytes(vs[0]);
        let et = enc_u128s(vs.drop_first());
        assert(e0.len() == 16 && vstd::bytes::spec_u128_from_le_bytes(e0) == vs[0]) by {
            vstd::bytes::lemma_auto_spec_u128_to_from_le_bytes();
        }
        assert(whole.subrange(0, 16) =~= e0);
        lemma_subrange_sub(s, pos, 0, 16, whole);
        crate::binary::lemma_read_u128_enc(s, pos, vs[0]);
        assert(whole.subrange(16, whole.len() as int) =~= et);
        lemma_subrange_sub(s, pos, 16, et.len() as int, whole);
        lemma_read_u128s_enc(s, pos + 16, vs.drop_first());
        assert(seq![vs[0]] + vs.drop_first() =~= vs);
    } else {
        assert(vs =~= Seq::<u128>::empty());
    }
}

/// Round trip for string cells.
pub proof fn lemma_read_strs_enc(s: Seq<u8>, pos: int, vs: Seq<Seq<u8>>)
    requires
        0 <= pos,
        forall|i: int| 0 <= i < vs.len() ==> #[trigger] vs[i].len() <= u64::MAX,
        pos + enc_strs(vs).len() <= s.len(),
        s.subrange(pos, pos + enc_strs(vs).len() as int) == enc_strs(vs),
    ensures
        spec_read_strs(s, pos, vs.len()) == ReadOutcome::<Seq<Seq<u8>>>::Val(
            vs,
            enc_strs(vs).len() as int,
        ),
    decreases vs.len(),
{
    if vs.len() > 0 {
        let whole = enc_strs(vs);
        let e0 = spec_str_enc(vs[0]);
        let et = enc_strs(vs.drop_first());
        assert(whole.subrange(0, e0.len() as int) =~= e0);
        lemma_subrange_sub(s, pos, 0, e0.len() as int, whole);
        lemma_read_str_enc(s, pos, vs[0]);
        assert(whole.subrange(e0.len() as int, whole.len() as int) =~= et);
        lemma_subrange_sub(s, pos, e0.len() as int, et.len() as int, whole);
        assert(forall|i: int|
            0 <= i < vs.drop_first().len() ==> #[trigger] vs.drop_first()[i].len() <= u64::MAX);
        lemma_read_strs_enc(s, pos + e0.len(), vs.drop_first());
        assert(seq![vs[0]] + vs.drop_first() =~= vs);
    } else {
        assert(vs =~= Seq::<Seq<u8>>::empty());
    }
}

/// Round trip for fixed-width string cells.
pub proof fn lemma_read_fixed_strs_enc(s: Seq<u8>, pos: int, vs: Seq<Seq<u8>>, w: nat)
    requires
        0 <= pos,
        forall|i: int| 0 <= i < vs.len() ==> #[trigger] vs[i].len() == w,
        pos + enc_fixed_strs(vs).len() <= s.len(),
        s.subrange(pos, pos + enc_fixed_strs(vs).len() as int) == enc_fixed_strs(vs),
    ensures
        spec_read_fixed_strs(s, pos, vs.len(), w) == ReadOutcome::<Seq<Seq<u8>>>::Val(
            vs,
            enc_fixed_strs(vs).len() as int,
        ),
    decreases vs.len(),
{
    if vs.len() > 0 {
        let whole = enc_fixed_strs(vs);
        let e0 = vs[0];
        let et = enc_fixed_strs(vs.drop_first());
        assert(e0.len() == w);
        assert(whole.subrange(0, w as int) =~= e0);
        lemma_subrange_sub(s, pos, 0, w as int, whole);
        assert(s.subrange(pos, pos + w as int) == e0);
        assert(whole.subrange(w as int, whole.len() as int) =~= et);
        lemma_subrange_sub(s, pos, w as int, et.len() as int, whole);
        assert(forall|i: int|
            0 <= i < vs.drop_first().len() ==> #[trigger] vs.drop_first()[i].len() == w);
        lemma_read_fixed_strs_enc(s, pos + w, vs.drop_first(), w);
        assert(seq![vs[0]] + vs.drop_first() =~= vs);
    } else {
        assert(vs =~= Seq::<Seq<u8>>::empty());
    }
}

// ---------------------------------------------------------------------------
// Decimal numerals inside type strings
// ---------------------------------------------------------------------------
/// Decimal numeral of `n`, most significant digit first.
pub open spec fn spec_dec_enc(n: nat) -> Seq<u8>
    decreases n,
{
    if n < 10 {
        seq![(48 + n) as u8]
    } else {
        spec_dec_enc(n / 10) + seq![(48 + n % 10) as u8]
    }
}

/// Whether a byte sequence is a canonical decimal numeral: at least one
/// digit, digits only, no leading zero.
pub open spec fn spec_dec_ok(s: Seq<u8>) -> bool {
    &&& s.len() >= 1
    &&& (forall|i: int| 0 <= i < s.len() ==> 48 <= #[trigger] s[i] <= 57)
    &&& (s.len() > 1 ==> s[0] != 48)
}

/// Value of a digit sequence, most significant digit first.
pub open spec fn spec_dec_val(s: Seq<u8>) -> nat
    decreases s.len(),
{
    if s.len() == 0 {
        0
    } else {
        spec_dec_val(s.drop_last()) * 10 + (if s.last() >= 48 {
            (s.last() - 48) as nat
        } else {
            0
        })
    }
}

/// A canonical numeral reads back to its value.
pub proof fn lemma_dec_round_trip(n: nat)
    ensures
        spec_dec_ok(spec_dec_enc(n)),
        spec_dec_val(spec_dec_enc(n)) == n,
    decreases n,
{
    if n < 10 {
        let e = spec_dec_enc(n);
        assert(e.drop_last() =~= Seq::<u8>::empty());
        assert(spec_dec_val(Seq::<u8>::empty()) == 0);
        assert(e.last() == (48 + n) as u8);
        assert(spec_dec_val(e) == n);
    } else {
        lemma_dec_round_trip(n / 10);
        let e = spec_dec_enc(n);
        let h = spec_dec_enc(n / 10);
        assert(e == h + seq![(48 + n % 10) as u8]);
        assert(e.drop_last() =~= h);
        assert(e.last() == (48 + n % 10) as u8);
        assert(n % 10 < 10);
        assert(spec_dec_val(e) == spec_dec_val(h) * 10 + n % 10);
        assert((n / 10) * 10 + n % 10 == n) by {
            vstd::arithmetic::div_mod::lemma_fundamental_div_mod(n as int, 10);
        }
        if n / 10 < 10 {
            assert(h == seq![(48 + n / 10) as u8]);
            assert(n / 10 >= 1) by (nonlinear_arith)
                requires
                    n >= 10,
            ;
            assert(h[0] != 48);
        } else {
            assert(spec_dec_enc(n / 10 / 10).len() >= 1);
            assert(h.len() >= 2);
            assert(h[0] != 48);
        }
        assert(e[0] == h[0]);
        assert(e.len() == h.len() + 1);
        assert(forall|i: int|
            0 <= i < e.len() ==> 48 <= #[trigger] e[i] <= 57) by {
            assert(forall|i: int| 0 <= i < h.len() ==> 48 <= #[trigger] h[i] <= 57);
            assert(forall|i: int| 0 <= i < e.len() - 1 ==> e[i] == h[i]);
            assert(e[e.len() - 1] == (48 + n % 10) as u8);
        }
        assert(spec_dec_ok(e));
        assert(spec_dec_val(e) == n);
    }
}

// ---------------------------------------------------------------------------
// Type strings
// ---------------------------------------------------------------------------
/// The bytes of the name `UInt8`.
pub open spec fn nm_uint8() -> Seq<u8> {
    seq![85u8, 73, 110, 116, 56]
}

/// The bytes of the name `UInt16`.
pub open spec fn nm_uint16() -> Seq<u8> {
    seq![85u8, 73, 110, 116, 49, 54]
}

/// The bytes of the name `UInt32`.
pub open spec fn nm_uint32() -> Seq<u8> {
    seq![85u8, 73, 110, 116, 51, 50]
}

/// The bytes of the name `UInt64`.
pub open spec fn nm_uint64() -> Seq<u8> {
    seq![85u8, 73, 110, 116, 54, 52]
}

/// The bytes of the name `Int8`.
pub open spec fn nm_int8() -> Seq<u8> {
    seq![73u8, 110, 116, 56]
}

/// The bytes of the name `Int16`.
pub open spec fn nm_int16() -> Seq<u8> {
    seq![73u8, 110, 116, 49, 54]
}

/// The bytes of the name `Int32`.
pub open spec fn nm_int32() -> Seq<u8> {
    seq![73u8, 110, 116, 51, 50]
}

/// The bytes of the name `Int64`.
pub open spec fn nm_int64() -> Seq<u8> {
    seq![73u8, 110, 116, 54, 52]
}

/// The bytes of the name `Float32`.
pub open spec fn nm_float32() -> Seq<u8> {
    seq![70u8, 108, 111, 97, 116, 51, 50]
}

/// The bytes of the name `Float64`.
pub open spec fn nm_float64() -> Seq<u8> {
    seq![70u8, 108, 111, 97, 116, 54, 52]
}

/// The bytes of the name `String`.
pub open spec fn nm_string() -> Seq<u8> {
    seq![83u8, 116, 114, 105, 110, 103]
}

/// The bytes of the name `Date`.
pub open spec fn nm_date() -> Seq<u8> {
    seq![68u8, 97, 116, 101]
}

/// The bytes of the name `DateTime`.
pub open spec fn nm_datetime() -> Seq<u8> {
    seq![68u8, 97, 116, 101, 84, 105, 109, 101]
}

/// The bytes of the prefix `FixedString(`.
pub open spec fn nm_fixedstring_open() -> Seq<u8> {
    seq![70u8, 105, 120, 101, 100, 83, 116, 114, 105, 110, 103, 40]
}

/// The bytes of the prefix `DateTime64(`.
pub open spec fn nm_datetime64_open() -> Seq<u8> {
    seq![68u8, 97, 116, 101, 84, 105, 109, 101, 54, 52, 40]
}

/// The bytes of the prefix `Decimal(`.
pub open spec fn nm_decimal_open() -> Seq<u8> {
    seq![68u8, 101, 99, 105, 109, 97, 108, 40]
}

/// The first position at or after `pos` holding byte `b`, or the length of
/// `s` when there is none.
pub open spec fn find_byte(s: Seq<u8>, pos: int, b: u8) -> int
    decreases s.len() - pos,
{
    if pos < 0 || pos >= s.len() {
        s.len() as int
    } else if s[pos] == b {
        pos
    } else {
        find_byte(s, pos + 1, b)
    }
}

/// `find_byte` lands on the first occurrence.
pub proof fn lemma_find_byte_at(s: Seq<u8>, pos: int, b: u8, k: int)
    requires
        0 <= pos <= k < s.len(),
        s[k] == b,
        forall|j: int| pos <= j < k ==> s[j] != b,
    ensures
        find_byte(s, pos, b) == k,
    decreases k - pos,
{
    if pos < k {
        lemma_find_byte_at(s, pos + 1, b, k);
    }
}

/// `find_byte` never lands before its starting position.
pub proof fn lemma_find_byte_min(s: Seq<u8>, pos: int, b: u8)
    requires
        0 <= pos <= s.len(),
    ensures
        find_byte(s, pos, b) >= pos,
    decreases s.len() - pos,
{
    if pos < s.len() && s[pos] != b {
        lemma_find_byte_min(s, pos + 1, b);
    }
}

/// `find_byte` passes any stretch free of the byte.
pub proof fn lemma_find_byte_beyond(s: Seq<u8>, pos: int, b: u8, k: int)
    requires
        0 <= pos <= k <= s.len(),
        forall|j: int| pos <= j < k ==> s[j] != b,
    ensures
        find_byte(s, pos, b) >= k,
    decreases k - pos,
{
    if pos < k {
        lemma_find_byte_beyond(s, pos + 1, b, k);
    } else {
        lemma_find_byte_min(s, pos, b);
    }
}

/// `find_byte` reports the length when the byte does not occur.
pub proof fn lemma_find_byte_none(s: Seq<u8>, pos: int, b: u8)
    requires
        0 <= pos <= s.len(),
        forall|j: int| pos <= j < s.len() ==> s[j] != b,
    ensures
        find_byte(s, pos, b) == s.len(),
    decreases s.len() - pos,
{
    if pos < s.len() {
        lemma_find_byte_none(s, pos + 1, b);
    }
}

/// The bytes of the prefix `Nullable(`.
pub open spec fn nm_nullable_open() -> Seq<u8> {
    seq![78u8, 117, 108, 108, 97, 98, 108, 101, 40]
}

/// Signed decimal numeral: a minus sign before the magnitude for negative
/// values.
pub open spec fn spec_sdec_enc(v: int) -> Seq<u8> {
    if v < 0 {
        seq![45u8] + spec_dec_enc((-v) as nat)
    } else {
        spec_dec_enc(v as nat)
    }
}

/// Parser for a signed decimal numeral filling a whole window.
pub open spec fn spec_parse_sdec(s: Seq<u8>) -> Option<int> {
    if s.len() >= 2 && s[0] == 45 {
        let d = s.subrange(1, s.len() as int);
        if spec_dec_ok(d) && 1 <= spec_dec_val(d) <= u64::MAX {
            Option::Some(-(spec_dec_val(d) as int))
        } else {
            Option::None
        }
    } else if spec_dec_ok(s) && spec_dec_val(s) <= u64::MAX {
        Option::Some(spec_dec_val(s) as int)
    } else {
        Option::None
    }
}

/// Every byte of a signed numeral is the sign or a digit.
proof fn lemma_sdec_bytes(v: int)
    requires
        -0x10000000000000000 < v <= u64::MAX,
    ensures
        forall|j: int| 0 <= j < spec_sdec_enc(v).len() ==> 45 <= #[trigger] spec_sdec_enc(v)[j]
            <= 57,
        spec_sdec_enc(v).len() >= 1,
{
    if v < 0 {
        lemma_dec_round_trip((-v) as nat);
    } else {
        lemma_dec_round_trip(v as nat);
    }
}

/// A signed numeral reads back to its value.
proof fn lemma_parse_sdec(v: int)
    requires
        -0x10000000000000000 < v <= u64::MAX,
    ensures
        spec_parse_sdec(spec_sdec_enc(v)) == Option::Some(v),
{
    let s = spec_sdec_enc(v);
    if v < 0 {
        lemma_dec_round_trip((-v) as nat);
        assert(s[0] == 45);
        assert(s.len() >= 2);
        assert(s.subrange(1, s.len() as int) =~= spec_dec_enc((-v) as nat));
    } else {
        lemma_dec_round_trip(v as nat);
        assert(s =~= spec_dec_enc(v as nat));
        assert(48 <= s[0] <= 57);
    }
}

/// One enum entry on the wire: the quoted label, an equals sign, and the
/// signed value.
pub open spec fn spec_enum_entry_enc(label: Seq<u8>, v: int) -> Seq<u8> {
    seq![39u8] + label + seq![39u8, 32, 61, 32] + spec_sdec_enc(v)
}

/// An enum's label map as written in its type string: entries joined by
/// comma-space.
pub open spec fn spec_enum_entries_enc(es: Seq<(Seq<u8>, int)>) -> Seq<u8>
    decreases es.len(),
{
    if es.len() == 0 {
        Seq::<u8>::empty()
    } else if es.len() == 1 {
        spec_enum_entry_enc(es[0].0, es[0].1)
    } else {
        spec_enum_entry_enc(es[0].0, es[0].1) + seq![44u8, 32] + spec_enum_entries_enc(
            es.drop_first(),
        )
    }
}

/// Appending an entry appends a separator and its encoding.
proof fn lemma_enum_entries_snoc(es: Seq<(Seq<u8>, int)>, e: (Seq<u8>, int))
    requires
        es.len() >= 1,
    ensures
        spec_enum_entries_enc(es.push(e)) == spec_enum_entries_enc(es) + seq![44u8, 32]
            + spec_enum_entry_enc(e.0, e.1),
    decreases es.len(),
{
    if es.len() == 1 {
        assert(es.push(e)[0] == es[0]);
        assert(es.push(e).drop_first() =~= seq![e]);
        assert(seq![e][0] == e);
        assert(spec_enum_entries_enc(seq![e]) == spec_enum_entry_enc(e.0, e.1));
        assert(spec_enum_entries_enc(es.push(e)) =~= spec_enum_entries_enc(es) + seq![44u8, 32]
            + spec_enum_entry_enc(e.0, e.1));
    } else {
        assert(es.push(e).drop_first() =~= es.drop_first().push(e));
        lemma_enum_entries_snoc(es.drop_first(), e);
        assert(es.push(e)[0] == es[0]);
        assert(spec_enum_entries_enc(es.push(e)) =~= spec_enum_entries_enc(es) + seq![44u8, 32]
            + spec_enum_entry_enc(e.0, e.1));
    }
}

/// Reader for an enum's label map filling the window `[pos, end)`: quoted
/// labels, equals signs, and values within `[lo, hi]`, separated by
/// comma-space.
pub open spec fn spec_parse_enum_entries(s: Seq<u8>, pos: int, end: int, lo: int, hi: int) -> Option<
    Seq<(Seq<u8>, int)>,
>
    decreases end - pos,
{
    if pos < 0 || pos >= end || end > s.len() {
        Option::None
    } else if s[pos] != 39 {
        Option::None
    } else {
        let q = find_byte(s, pos + 1, 39);
        if q >= end || q < pos + 1 {
            Option::None
        } else {
            let label = s.subrange(pos + 1, q);
            if q + 4 > end || s[q + 1] != 32 || s[q + 2] != 61 || s[q + 3] != 32 {
                Option::None
            } else {
                let c = find_byte(s, q + 4, 44);
                if c >= end {
                    match spec_parse_sdec(s.subrange(q + 4, end)) {
                        Option::Some(v) => if lo <= v <= hi {
                            Option::Some(seq![(label, v)])
                        } else {
                            Option::None
                        },
                        Option::None => Option::None,
                    }
                } else if c < q + 4 || c + 2 > end || s[c + 1] != 32 {
                    Option::None
                } else {
                    match spec_parse_sdec(s.subrange(q + 4, c)) {
                        Option::Some(v) => if lo <= v <= hi {
                            match spec_parse_enum_entries(s, c + 2, end, lo, hi) {
                                Option::Some(rest) => Option::Some(seq![(label, v)] + rest),
                                Option::None => Option::None,
                            }
                        } else {
                            Option::None
                        },
                        Option::None => Option::None,
                    }
                }
            }
        }
    }
}

/// Whether enum entries can be printed and re-read: at least one entry,
/// labels free of quote bytes, values within `[lo, hi]`.
pub open spec fn spec_enum_entries_wf(es: Seq<(Seq<u8>, int)>, lo: int, hi: int) -> bool {
    &&& es.len() >= 1
    &&& (forall|i: int, j: int|
        0 <= i < es.len() && 0 <= j < es[i].0.len() ==> #[trigger] es[i].0[j] != 39
            && es[i].0[j] != 40 && es[i].0[j] != 41)
    &&& (forall|i: int| 0 <= i < es.len() ==> lo <= (#[trigger] es[i]).1 <= hi)
}

/// Round trip: a well-formed label map reads back from its own encoding.
#[verifier::spinoff_prover]
#[verifier::rlimit(100)]
proof fn lemma_parse_enum_entries_enc(s: Seq<u8>, pos: int, es: Seq<(Seq<u8>, int)>, lo: int, hi: int)
    requires
        0 <= pos,
        -0x10000000000000000 < lo,
        hi <= u64::MAX,
        spec_enum_entries_wf(es, lo, hi),
        pos + spec_enum_entries_enc(es).len() <= s.len(),
        s.subrange(pos, pos + spec_enum_entries_enc(es).len() as int) == spec_enum_entries_enc(es),
    ensures
        spec_parse_enum_entries(s, pos, pos + spec_enum_entries_enc(es).len(), lo, hi)
            == Option::Some(es),
    decreases es.len(),
{
    let whole = spec_enum_entries_enc(es);
    let end = pos + whole.len();
    let label = es[0].0;
    let v = es[0].1;
    let e0 = spec_enum_entry_enc(label, v);
    let sd = spec_sdec_enc(v);
    lemma_sdec_bytes(v);
    lemma_parse_sdec(v);
    assert(forall|j: int| pos <= j < end ==> #[trigger] s[j] == whole[j - pos]) by {
        assert(forall|j: int|
            pos <= j < end ==> s.subrange(pos, pos + whole.len() as int)[j - pos]
                == #[trigger] whole[j - pos]);
    }
    let q = pos + 1 + label.len() as int;
    assert(forall|j: int, i2: int|
        0 <= i2 < es.len() && 0 <= j < es[i2].0.len() ==> #[trigger] es[i2].0[j] != 39);
    if es.len() == 1 {
        assert(whole == e0);
        assert(s[pos] == 39);
        assert(forall|j: int| pos + 1 <= j < q ==> #[trigger] s[j] == label[j - pos - 1]);
        assert(forall|j: int| pos + 1 <= j < q ==> #[trigger] s[j] != 39) by {
            assert(forall|j: int| pos + 1 <= j < q ==> #[trigger] s[j] == es[0].0[j - pos - 1]);
        }
        assert(s[q] == 39);
        lemma_find_byte_at(s, pos + 1, 39, q);
        assert(s.subrange(pos + 1, q) =~= label);
        assert(s[q + 1] == 32 && s[q + 2] == 61 && s[q + 3] == 32);
        assert(forall|j: int| q + 4 <= j < end ==> #[trigger] s[j] == sd[j - q - 4]);
        assert(forall|j: int| q + 4 <= j < end ==> #[trigger] s[j] != 44);
        lemma_find_byte_beyond(s, q + 4, 44, end);
        assert(s.subrange(q + 4, end) =~= sd);
        assert(es =~= seq![(label, v)]);
    } else {
        let rest = es.drop_first();
        let er = spec_enum_entries_enc(rest);
        assert(whole == e0 + seq![44u8, 32] + er);
        assert(s[pos] == 39);
        assert(forall|j: int| pos + 1 <= j < q ==> #[trigger] s[j] == label[j - pos - 1]);
        assert(forall|j: int| pos + 1 <= j < q ==> #[trigger] s[j] != 39) by {
            assert(forall|j: int| pos + 1 <= j < q ==> #[trigger] s[j] == es[0].0[j - pos - 1]);
        }
        assert(s[q] == 39);
        lemma_find_byte_at(s, pos + 1, 39, q);
        assert(s.subrange(pos + 1, q) =~= label);
        assert(s[q + 1] == 32 && s[q + 2] == 61 && s[q + 3] == 32);
        let c = q + 4 + sd.len() as int;
        assert(forall|j: int| q + 4 <= j < c ==> #[trigger] s[j] == sd[j - q - 4]);
        assert(forall|j: int| q + 4 <= j < c ==> #[trigger] s[j] != 44);
        assert(s[c] == 44);
        lemma_find_byte_at(s, q + 4, 44, c);
        assert(s.subrange(q + 4, c) =~= sd);
        assert(s[c + 1] == 32);
        assert(whole.subrange(c + 2 - pos, end - pos) =~= er);
        lemma_subrange_sub(s, pos, c + 2 - pos, er.len() as int, whole);
        assert(forall|i2: int, j2: int|
            0 <= i2 < rest.len() && 0 <= j2 < rest[i2].0.len() ==> #[trigger] rest[i2].0[j2]
                != 39) by {
            assert(forall|i2: int|
                0 <= i2 < rest.len() ==> #[trigger] rest[i2] == es[i2 + 1]);
        }
        assert(forall|i2: int| 0 <= i2 < rest.len() ==> lo <= (#[trigger] rest[i2]).1 <= hi) by {
            assert(forall|i2: int|
                0 <= i2 < rest.len() ==> #[trigger] rest[i2] == es[i2 + 1]);
        }
        lemma_parse_enum_entries_enc(s, c + 2, rest, lo, hi);
        assert(seq![(label, v)] + rest =~= es);
    }
}

/// The bytes of the prefix `Enum8(`.
pub open spec fn nm_enum8_open() -> Seq<u8> {
    seq![69u8, 110, 117, 109, 56, 40]
}

/// The bytes of the prefix `Enum16(`.
pub open spec fn nm_enum16_open() -> Seq<u8> {
    seq![69u8, 110, 117, 109, 49, 54, 40]
}

/// The bytes of the prefix `Tuple(`.
pub open spec fn nm_tuple_open() -> Seq<u8> {
    seq![84u8, 117, 112, 108, 101, 40]
}

/// Parenthesis contribution of one byte: open raises the depth, close
/// lowers it.
pub open spec fn paren_delta(b: u8) -> int {
    if b == 40 {
        1
    } else if b == 41 {
        -1
    } else {
        0
    }
}

/// Net parenthesis depth of a byte sequence.
pub open spec fn depth_of(s: Seq<u8>) -> int
    decreases s.len(),
{
    if s.len() == 0 {
        0
    } else {
        depth_of(s.drop_last()) + paren_delta(s.last())
    }
}

/// Depth adds over concatenation.
proof fn lemma_depth_concat(a: Seq<u8>, b: Seq<u8>)
    ensures
        depth_of(a + b) == depth_of(a) + depth_of(b),
    decreases b.len(),
{
    if b.len() == 0 {
        assert(a + b =~= a);
    } else {
        assert((a + b).drop_last() =~= a + b.drop_last());
        assert((a + b).last() == b.last());
        lemma_depth_concat(a, b.drop_last());
    }
}

/// No byte is a parenthesis.
pub open spec fn scan_flat(s: Seq<u8>) -> bool {
    forall|i: int| 0 <= i < s.len() ==> (#[trigger] s[i]) != 40 && s[i] != 41
}

proof fn lemma_flat_depth(s: Seq<u8>)
    requires
        scan_flat(s),
    ensures
        forall|i: int| 0 <= i <= s.len() ==> depth_of(#[trigger] s.take(i)) == 0,
        depth_of(s) == 0,
    decreases s.len(),
{
    if s.len() > 0 {
        assert(scan_flat(s.drop_last()));
        lemma_flat_depth(s.drop_last());
        assert forall|i: int| 0 <= i <= s.len() implies depth_of(#[trigger] s.take(i)) == 0 by {
            if i < s.len() {
                assert(s.take(i) =~= s.drop_last().take(i));
            } else {
                assert(s.take(i) =~= s);
                assert(s.drop_last().take(s.len() - 1) =~= s.drop_last());
            }
        }
        assert(s.take(s.len() as int) =~= s);
    } else {
        assert forall|i: int| 0 <= i <= s.len() implies depth_of(#[trigger] s.take(i)) == 0 by {
            assert(s.take(i) =~= s);
        }
    }
}

/// Parentheses pair up: the net depth is zero and no prefix dips below.
pub open spec fn scan_balanced(s: Seq<u8>) -> bool {
    &&& depth_of(s) == 0
    &&& forall|i: int| 0 <= i <= s.len() ==> depth_of(#[trigger] s.take(i)) >= 0
}

/// A printed type name as the tuple scanner sees it: balanced, and at the
/// outermost depth there is never a comma or a closing parenthesis.
pub open spec fn scan_clean(s: Seq<u8>) -> bool {
    &&& scan_balanced(s)
    &&& forall|i: int|
        0 <= i < s.len() && depth_of(s.take(i)) == 0 ==> (#[trigger] s[i]) != 44 && s[i] != 41
}

proof fn lemma_flat_clean(s: Seq<u8>)
    requires
        forall|i: int| 0 <= i < s.len() ==> (#[trigger] s[i]) != 40 && s[i] != 41 && s[i] != 44,
    ensures
        scan_clean(s),
{
    lemma_flat_depth(s);
}

proof fn lemma_balanced_concat(a: Seq<u8>, b: Seq<u8>)
    requires
        scan_balanced(a),
        scan_balanced(b),
    ensures
        scan_balanced(a + b),
{
    lemma_depth_concat(a, b);
    assert forall|i: int| 0 <= i <= (a + b).len() implies depth_of(#[trigger] (a + b).take(i))
        >= 0 by {
        if i <= a.len() {
            assert((a + b).take(i) =~= a.take(i));
        } else {
            assert((a + b).take(i) =~= a + b.take(i - a.len()));
            lemma_depth_concat(a, b.take(i - a.len()));
        }
    }
}

/// Wrapping balanced content in a lettered prefix that ends with an open
/// parenthesis, plus the closing parenthesis, yields a clean name.
proof fn lemma_clean_wrap(prefixx: Seq<u8>, mid: Seq<u8>)
    requires
        prefixx.len() >= 1,
        prefixx.last() == 40,
        forall|i: int|
            0 <= i < prefixx.len() - 1 ==> (#[trigger] prefixx[i]) != 40 && prefixx[i] != 41
                && prefixx[i] != 44,
    ensures
        scan_balanced(mid) ==> scan_clean(prefixx + mid + seq![41u8]),
{
    if scan_balanced(mid) {
        let w = prefixx + mid + seq![41u8];
        let head = prefixx.drop_last();
        assert(scan_flat(head));
        lemma_flat_depth(head);
        assert(depth_of(prefixx) == 1) by {
            assert(head.take(head.len() as int) =~= head);
        }
        lemma_depth_concat(prefixx, mid);
        lemma_depth_concat(prefixx + mid, seq![41u8]);
        assert(depth_of(seq![41u8]) == -1) by {
            assert(seq![41u8].drop_last() =~= Seq::<u8>::empty());
            assert(depth_of(Seq::<u8>::empty()) == 0);
        }
        assert(depth_of(w) == 0);
        assert forall|i: int| 0 <= i <= w.len() implies depth_of(#[trigger] w.take(i)) >= 0 by {
            if i < prefixx.len() {
                assert(w.take(i) =~= head.take(i));
            } else if i <= prefixx.len() + mid.len() {
                assert(w.take(i) =~= prefixx + mid.take(i - prefixx.len()));
                lemma_depth_concat(prefixx, mid.take(i - prefixx.len()));
            } else {
                assert(w.take(i) =~= w);
            }
        }
        assert forall|i: int|
            0 <= i < w.len() && depth_of(w.take(i)) == 0 implies (#[trigger] w[i]) != 44 && w[i]
            != 41 by {
            if i < prefixx.len() {
                assert(w.take(i) =~= head.take(i));
                assert(w[i] == prefixx[i]);
                if i == prefixx.len() - 1 {
                    assert(w[i] == 40);
                }
            } else if i < prefixx.len() + mid.len() {
                assert(w.take(i) =~= prefixx + mid.take(i - prefixx.len()));
                lemma_depth_concat(prefixx, mid.take(i - prefixx.len()));
            } else {
                assert(w.take(i) =~= prefixx + mid);
                lemma_depth_concat(prefixx, mid);
            }
        }
    }
}

/// The bytes of the prefix `LowCardinality(`.
pub open spec fn nm_lowcardinality_open() -> Seq<u8> {
    seq![76u8, 111, 119, 67, 97, 114, 100, 105, 110, 97, 108, 105, 116, 121, 40]
}

/// The bytes of the prefix `Array(`.
pub open spec fn nm_array_open() -> Seq<u8> {
    seq![65u8, 114, 114, 97, 121, 40]
}

/// The bytes of the prefix `DateTime('`.
pub open spec fn nm_datetime_open() -> Seq<u8> {
    seq![68u8, 97, 116, 101, 84, 105, 109, 101, 40, 39]
}

/// The canonical type string of a type, as this codec prints it.
pub open spec fn spec_type_name(t: TypeM) -> Seq<u8>
    decreases t,
{
    match t {
        TypeM::UInt8 => nm_uint8(),
        TypeM::UInt16 => nm_uint16(),
        TypeM::UInt32 => nm_uint32(),
        TypeM::UInt64 => nm_uint64(),
        TypeM::Int8 => nm_int8(),
        TypeM::Int16 => nm_int16(),
        TypeM::Int32 => nm_int32(),
        TypeM::Int64 => nm_int64(),
        TypeM::Float32 => nm_float32(),
        TypeM::Float64 => nm_float64(),
        TypeM::Str => nm_string(),
        TypeM::FixedStr(n) => nm_fixedstring_open() + spec_dec_enc(n) + seq![41u8],
        TypeM::Date => nm_date(),
        TypeM::DateTime(tz) => match tz {
            Option::None => nm_datetime(),
            Option::Some(z) => nm_datetime_open() + z + seq![39u8, 41],
        },
        TypeM::DateTime64(p, tz) => match tz {
            Option::None => nm_datetime64_open() + spec_dec_enc(p as nat) + seq![41u8],
            Option::Some(z) => nm_datetime64_open() + spec_dec_enc(p as nat) + seq![44u8, 32, 39]
                + z + seq![39u8, 41],
        },
        TypeM::Decimal(p, sc) => nm_decimal_open() + spec_dec_enc(p as nat) + seq![44u8, 32]
            + spec_dec_enc(sc as nat) + seq![41u8],
        TypeM::Enum8(es) => nm_enum8_open() + spec_enum_entries_enc(es) + seq![41u8],
        TypeM::Enum16(es) => nm_enum16_open() + spec_enum_entries_enc(es) + seq![41u8],
        TypeM::Nullable(inner) => nm_nullable_open() + spec_type_name(*inner) + seq![41u8],
        TypeM::Array(inner) => nm_array_open() + spec_type_name(*inner) + seq![41u8],
        TypeM::LowCardinality(inner) => nm_lowcardinality_open() + spec_type_name(*inner)
            + seq![41u8],
        TypeM::Tuple(elems) => nm_tuple_open() + spec_tuple_names(*elems) + seq![41u8],
    }
}

/// The element names of a tuple's type string, joined by comma-space.
pub open spec fn spec_tuple_names(l: TypeListM) -> Seq<u8>
    decreases l,
{
    match l {
        TypeListM::Last(t) => spec_type_name(*t),
        TypeListM::Cons(t, rest) => spec_type_name(*t) + seq![44u8, 32] + spec_tuple_names(*rest),
    }
}

/// The first top-level separator comma at or after `pos` in `[pos, end)`,
/// scanning with parenthesis depth `depth`; `end` when there is none.
pub open spec fn find_sep(s: Seq<u8>, pos: int, end: int, depth: int) -> int
    decreases end - pos,
{
    if pos < 0 || pos >= end {
        end
    } else if depth == 0 && s[pos] == 44 {
        pos
    } else {
        find_sep(s, pos + 1, end, depth + paren_delta(s[pos]))
    }
}

/// Whether `s` starts with `p`.
pub open spec fn spec_starts_with(s: Seq<u8>, p: Seq<u8>) -> bool {
    s.len() >= p.len() && s.subrange(0, p.len() as int) == p
}

/// Parser for a complete type string.  `None` means the string is not a
/// type this codec knows.
pub open spec fn spec_parse_type(s: Seq<u8>) -> Option<TypeM>
    decreases s.len(), 1int,
{
    if s == nm_uint8() {
        Option::Some(TypeM::UInt8)
    } else if s == nm_uint16() {
        Option::Some(TypeM::UInt16)
    } else if s == nm_uint32() {
        Option::Some(TypeM::UInt32)
    } else if s == nm_uint64() {
        Option::Some(TypeM::UInt64)
    } else if s == nm_int8() {
        Option::Some(TypeM::Int8)
    } else if s == nm_int16() {
        Option::Some(TypeM::Int16)
    } else if s == nm_int32() {
        Option::Some(TypeM::Int32)
    } else if s == nm_int64() {
        Option::Some(TypeM::Int64)
    } else if s == nm_float32() {
        Option::Some(TypeM::Float32)
    } else if s == nm_float64() {
        Option::Some(TypeM::Float64)
    } else if s == nm_string() {
        Option::Some(TypeM::Str)
    } else if s == nm_date() {
        Option::Some(TypeM::Date)
    } else if s == nm_datetime() {
        Option::Some(TypeM::DateTime(Option::None))
    } else if spec_starts_with(s, nm_datetime64_open()) && s.len() >= 13 && s[s.len() - 1] == 41 {
        let c = find_byte(s, 11, 44);
        if c == s.len() {
            let digits = s.subrange(11, s.len() - 1);
            if spec_dec_ok(digits) && spec_dec_val(digits) <= 9 {
                Option::Some(TypeM::DateTime64(spec_dec_val(digits) as u64, Option::None))
            } else {
                Option::None
            }
        } else if c + 5 <= s.len() && s[c + 1] == 32 && s[c + 2] == 39 && s[s.len() - 2] == 39 {
            let digits = s.subrange(11, c);
            let tz = s.subrange(c + 3, s.len() - 2);
            if spec_dec_ok(digits) && spec_dec_val(digits) <= 9 {
                Option::Some(TypeM::DateTime64(spec_dec_val(digits) as u64, Option::Some(tz)))
            } else {
                Option::None
            }
        } else {
            Option::None
        }
    } else if spec_starts_with(s, nm_datetime_open()) && s.len() >= 12 && s[s.len() - 2] == 39
        && s[s.len() - 1] == 41 {
        Option::Some(TypeM::DateTime(Option::Some(s.subrange(10, s.len() - 2))))
    } else if spec_starts_with(s, nm_decimal_open()) && s.len() >= 13 && s[s.len() - 1] == 41 {
        let c = find_byte(s, 8, 44);
        if c < s.len() - 1 && s[c + 1] == 32 {
            let d1 = s.subrange(8, c);
            let d2 = s.subrange(c + 2, s.len() - 1);
            if spec_dec_ok(d1) && spec_dec_ok(d2) && 1 <= spec_dec_val(d1) <= 38 && spec_dec_val(
                d2,
            ) <= spec_dec_val(d1) {
                Option::Some(TypeM::Decimal(spec_dec_val(d1) as u64, spec_dec_val(d2) as u64))
            } else {
                Option::None
            }
        } else {
            Option::None
        }
    } else if spec_starts_with(s, nm_enum8_open()) && s.len() >= 8 && s[s.len() - 1] == 41 {
        match spec_parse_enum_entries(s, 6, s.len() - 1, -128, 127) {
            Option::Some(es) => Option::Some(TypeM::Enum8(es)),
            Option::None => Option::None,
        }
    } else if spec_starts_with(s, nm_enum16_open()) && s.len() >= 9 && s[s.len() - 1] == 41 {
        match spec_parse_enum_entries(s, 7, s.len() - 1, -32768, 32767) {
            Option::Some(es) => Option::Some(TypeM::Enum16(es)),
            Option::None => Option::None,
        }
    } else if spec_starts_with(s, nm_fixedstring_open()) && s.len() >= 14 && s[s.len() - 1] == 41 {
        let digits = s.subrange(12, s.len() - 1);
        if spec_dec_ok(digits) && 1 <= spec_dec_val(digits) <= u64::MAX {
            Option::Some(TypeM::FixedStr(spec_dec_val(digits)))
        } else {
            Option::None
        }
    } else if spec_starts_with(s, nm_nullable_open()) && s.len() >= 11 && s[s.len() - 1] == 41 {
        match spec_parse_type(s.subrange(9, s.len() - 1)) {
            Option::Some(t) => Option::Some(TypeM::Nullable(Box::new(t))),
            Option::None => Option::None,
        }
    } else if spec_starts_with(s, nm_array_open()) && s.len() >= 8 && s[s.len() - 1] == 41 {
        match spec_parse_type(s.subrange(6, s.len() - 1)) {
            Option::Some(t) => Option::Some(TypeM::Array(Box::new(t))),
            Option::None => Option::None,
        }
    } else if spec_starts_with(s, nm_lowcardinality_open()) && s.len() >= 17 && s[s.len() - 1]
        == 41 {
        match spec_parse_type(s.subrange(15, s.len() - 1)) {
            Option::Some(t) => Option::Some(TypeM::LowCardinality(Box::new(t))),
            Option::None => Option::None,
        }
    } else if spec_starts_with(s, nm_tuple_open()) && s.len() >= 11 && s[s.len() - 1] == 41 {
        match spec_parse_tuple_elems(s, 6, s.len() - 1) {
            Option::Some(l) => Option::Some(TypeM::Tuple(Box::new(l))),
            Option::None => Option::None,
        }
    } else {
        Option::None
    }
}

/// Parser for a tuple's element list filling the window `[pos, end)`:
/// type names split at top-level comma-space separators.
pub open spec fn spec_parse_tuple_elems(s: Seq<u8>, pos: int, end: int) -> Option<TypeListM>
    decreases end - pos, 3int,
{
    if pos < 0 || pos >= end || end > s.len() {
        Option::None
    } else {
        let c = find_sep(s, pos, end, 0);
        if c >= end {
            match spec_parse_type(s.subrange(pos, end)) {
                Option::Some(t) => Option::Some(TypeListM::Last(Box::new(t))),
                Option::None => Option::None,
            }
        } else if c < pos + 1 || c + 2 > end || s[c + 1] != 32 {
            Option::None
        } else {
            match spec_parse_type(s.subrange(pos, c)) {
                Option::Some(t) => match spec_parse_tuple_elems(s, c + 2, end) {
                    Option::Some(rest) => Option::Some(
                        TypeListM::Cons(Box::new(t), Box::new(rest)),
                    ),
                    Option::None => Option::None,
                },
                Option::None => Option::None,
            }
        }
    }
}

/// Every printed type name is at least four bytes long.
pub proof fn lemma_type_name_min_len(t: TypeM)
    ensures
        spec_type_name(t).len() >= 4,
    decreases t,
{
    match t {
        TypeM::Nullable(inner) => lemma_type_name_min_len(*inner),
        TypeM::Array(inner) => lemma_type_name_min_len(*inner),
        TypeM::LowCardinality(inner) => lemma_type_name_min_len(*inner),
        TypeM::Tuple(elems) => {},
        _ => {},
    }
}

proof fn lemma_flat_concat(a: Seq<u8>, b: Seq<u8>)
    requires
        scan_flat(a),
        scan_flat(b),
    ensures
        scan_flat(a + b),
{
    assert forall|i: int| 0 <= i < (a + b).len() implies ((#[trigger] (a + b)[i]) != 40 && (a
        + b)[i] != 41) by {
        if i < a.len() {
            assert((a + b)[i] == a[i]);
        } else {
            assert((a + b)[i] == b[i - a.len()]);
        }
    }
}

proof fn lemma_dec_flat(n: nat)
    ensures
        scan_flat(spec_dec_enc(n)),
{
    lemma_dec_round_trip(n);
}

proof fn lemma_sdec_flat(v: int)
    requires
        -0x10000000000000000 < v <= u64::MAX,
    ensures
        scan_flat(spec_sdec_enc(v)),
{
    lemma_sdec_bytes(v);
}

/// No byte of an encoded enum label map is a parenthesis, given labels
/// without them.
proof fn lemma_enum_entries_flat(es: Seq<(Seq<u8>, int)>, lo: int, hi: int)
    requires
        -0x10000000000000000 < lo,
        hi <= u64::MAX,
        spec_enum_entries_wf(es, lo, hi),
    ensures
        scan_flat(spec_enum_entries_enc(es)),
    decreases es.len(),
{
    let label = es[0].0;
    let v = es[0].1;
    lemma_sdec_flat(v);
    assert(scan_flat(label)) by {
        assert(forall|j: int| 0 <= j < label.len() ==> #[trigger] es[0].0[j] != 40 && es[0].0[j]
            != 41);
    }
    let e0 = spec_enum_entry_enc(label, v);
    assert(scan_flat(e0)) by {
        lemma_flat_concat(seq![39u8], label);
        lemma_flat_concat(seq![39u8] + label, seq![39u8, 32, 61, 32]);
        lemma_flat_concat(seq![39u8] + label + seq![39u8, 32, 61, 32], spec_sdec_enc(v));
        assert(e0 =~= (seq![39u8] + label + seq![39u8, 32, 61, 32]) + spec_sdec_enc(v));
    }
    if es.len() == 1 {
        assert(spec_enum_entries_enc(es) == e0);
    } else {
        let rest = es.drop_first();
        assert(spec_enum_entries_wf(rest, lo, hi)) by {
            assert(forall|i2: int| 0 <= i2 < rest.len() ==> #[trigger] rest[i2] == es[i2 + 1]);
        }
        lemma_enum_entries_flat(rest, lo, hi);
        lemma_flat_concat(e0, seq![44u8, 32]);
        lemma_flat_concat(e0 + seq![44u8, 32], spec_enum_entries_enc(rest));
        assert(spec_enum_entries_enc(es) =~= (e0 + seq![44u8, 32]) + spec_enum_entries_enc(
            rest,
        ));
    }
}

/// Every well-formed type prints to a scanner-clean name: balanced
/// parentheses and no top-level comma or stray closing parenthesis, so the
/// tuple splitter passes over it whole.
#[verifier::spinoff_prover]
#[verifier::rlimit(100)]
proof fn lemma_name_clean_fixedstr(t: TypeM)
    requires
        t.wf(),
        t is FixedStr,
    ensures
        scan_clean(spec_type_name(t)),
{
    let s = spec_type_name(t);
    let n = t->FixedStr_0;
    lemma_dec_flat(n);
    lemma_clean_wrap(nm_fixedstring_open(), spec_dec_enc(n));
    lemma_flat_depth(spec_dec_enc(n));
}

#[verifier::spinoff_prover]
#[verifier::rlimit(100)]
proof fn lemma_name_clean_datetime_some(z: Seq<u8>)
    requires
        forall|i: int| 0 <= i < z.len() ==> (#[trigger] z[i]) != 40 && z[i] != 41,
    ensures
        scan_clean(spec_type_name(TypeM::DateTime(Option::Some(z)))),
{
    let prefixx = seq![68u8, 97, 116, 101, 84, 105, 109, 101, 40];
    let mid = seq![39u8] + z + seq![39u8];
    let w = prefixx + mid + seq![41u8];
    assert(scan_balanced(mid)) by {
        assert(scan_flat(mid)) by {
            lemma_flat_concat(seq![39u8], z);
            lemma_flat_concat(seq![39u8] + z, seq![39u8]);
            assert(mid =~= (seq![39u8] + z) + seq![39u8]);
        }
        lemma_flat_depth(mid);
    }
    assert(scan_clean(w)) by {
        lemma_clean_wrap(prefixx, mid);
    }
    assert(spec_type_name(TypeM::DateTime(Option::Some(z))) == w) by {
        assert(spec_type_name(TypeM::DateTime(Option::Some(z))) =~= w);
    }
}

#[verifier::spinoff_prover]
#[verifier::rlimit(100)]
proof fn lemma_name_clean_datetime(t: TypeM)
    requires
        t.wf(),
        t is DateTime,
    ensures
        scan_clean(spec_type_name(t)),
{
    let s = spec_type_name(t);
    let tz = t->DateTime_0;
    match tz {
        Option::None => {
            lemma_flat_clean(s);
        },
        Option::Some(z) => {
            lemma_name_clean_datetime_some(z);
        },
    }
}

#[verifier::spinoff_prover]
#[verifier::rlimit(100)]
proof fn lemma_name_clean_datetime64_none(p: u64)
    ensures
        scan_clean(spec_type_name(TypeM::DateTime64(p, Option::None))),
{
    let prefixx = seq![68u8, 97, 116, 101, 84, 105, 109, 101, 54, 52, 40];
    let mid = spec_dec_enc(p as nat);
    let w = prefixx + mid + seq![41u8];
    assert(scan_balanced(mid)) by {
        lemma_dec_flat(p as nat);
        lemma_flat_depth(mid);
    }
    assert(scan_clean(w)) by {
        lemma_clean_wrap(prefixx, mid);
    }
    assert(spec_type_name(TypeM::DateTime64(p, Option::None)) == w) by {
        assert(spec_type_name(TypeM::DateTime64(p, Option::None)) =~= w);
    }
}

#[verifier::spinoff_prover]
#[verifier::rlimit(100)]
proof fn lemma_name_clean_datetime64_some(p: u64, z: Seq<u8>)
    requires
        forall|i: int| 0 <= i < z.len() ==> (#[trigger] z[i]) != 40 && z[i] != 41,
    ensures
        scan_clean(spec_type_name(TypeM::DateTime64(p, Option::Some(z)))),
{
    let prefixx = seq![68u8, 97, 116, 101, 84, 105, 109, 101, 54, 52, 40];
    let mid = spec_dec_enc(p as nat) + seq![44u8, 32, 39] + z + seq![39u8];
    let w = prefixx + mid + seq![41u8];
    assert(scan_balanced(mid)) by {
        assert(scan_flat(mid)) by {
            lemma_dec_flat(p as nat);
            lemma_flat_concat(spec_dec_enc(p as nat), seq![44u8, 32, 39]);
            lemma_flat_concat(spec_dec_enc(p as nat) + seq![44u8, 32, 39], z);
            lemma_flat_concat(spec_dec_enc(p as nat) + seq![44u8, 32, 39] + z, seq![39u8]);
            assert(mid =~= ((spec_dec_enc(p as nat) + seq![44u8, 32, 39]) + z) + seq![39u8]);
        }
        lemma_flat_depth(mid);
    }
    assert(scan_clean(w)) by {
        lemma_clean_wrap(prefixx, mid);
    }
    assert(spec_type_name(TypeM::DateTime64(p, Option::Some(z))) == w) by {
        assert(spec_type_name(TypeM::DateTime64(p, Option::Some(z))) =~= w);
    }
}

#[verifier::spinoff_prover]
#[verifier::rlimit(100)]
proof fn lemma_name_clean_datetime64(t: TypeM)
    requires
        t.wf(),
        t is DateTime64,
    ensures
        scan_clean(spec_type_name(t)),
{
    let p = t->DateTime64_0;
    let tz = t->DateTime64_1;
    match tz {
        Option::None => {
            lemma_name_clean_datetime64_none(p);
        },
        Option::Some(z) => {
            lemma_name_clean_datetime64_some(p, z);
        },
    }
}

#[verifier::spinoff_prover]
#[verifier::rlimit(100)]
proof fn lemma_name_clean_decimal(t: TypeM)
    requires
        t.wf(),
        t is Decimal,
    ensures
        scan_clean(spec_type_name(t)),
{
    let p = t->Decimal_0;
    let sc = t->Decimal_1;
    let mid = spec_dec_enc(p as nat) + seq![44u8, 32] + spec_dec_enc(sc as nat);
    let w = nm_decimal_open() + mid + seq![41u8];
    assert(scan_balanced(mid)) by {
        assert(scan_flat(mid)) by {
            lemma_dec_flat(p as nat);
            lemma_dec_flat(sc as nat);
            lemma_flat_concat(spec_dec_enc(p as nat), seq![44u8, 32]);
            lemma_flat_concat(spec_dec_enc(p as nat) + seq![44u8, 32], spec_dec_enc(sc as nat));
        }
        lemma_flat_depth(mid);
    }
    assert(scan_clean(w)) by {
        lemma_clean_wrap(nm_decimal_open(), mid);
    }
    assert(spec_type_name(t) == w) by {
        assert(spec_type_name(t) =~= w);
    }
}

#[verifier::spinoff_prover]
#[verifier::rlimit(100)]
proof fn lemma_name_clean_enum8(t: TypeM)
    requires
        t.wf(),
        t is Enum8,
    ensures
        scan_clean(spec_type_name(t)),
{
    let s = spec_type_name(t);
    let es = t->Enum8_0;
    lemma_enum_entries_flat(es, -128, 127);
    lemma_flat_depth(spec_enum_entries_enc(es));
    lemma_clean_wrap(nm_enum8_open(), spec_enum_entries_enc(es));
}

#[verifier::spinoff_prover]
#[verifier::rlimit(100)]
proof fn lemma_name_clean_enum16(t: TypeM)
    requires
        t.wf(),
        t is Enum16,
    ensures
        scan_clean(spec_type_name(t)),
{
    let s = spec_type_name(t);
    let es = t->Enum16_0;
    lemma_enum_entries_flat(es, -32768, 32767);
    lemma_flat_depth(spec_enum_entries_enc(es));
    lemma_clean_wrap(nm_enum16_open(), spec_enum_entries_enc(es));
}

#[verifier::spinoff_prover]
#[verifier::rlimit(100)]
proof fn lemma_name_clean_value(t: TypeM)
    requires
        t.wf(),
        !(t is Nullable),
        !(t is Array),
        !(t is LowCardinality),
        !(t is Tuple),
    ensures
        scan_clean(spec_type_name(t)),
{
    let s = spec_type_name(t);
    match t {
        TypeM::FixedStr(n) => {
            lemma_name_clean_fixedstr(t);
        },
        TypeM::DateTime(tz) => {
            lemma_name_clean_datetime(t);
        },
        TypeM::DateTime64(p, tz) => {
            lemma_name_clean_datetime64(t);
        },
        TypeM::Decimal(p, sc) => {
            lemma_name_clean_decimal(t);
        },
        TypeM::Enum8(es) => {
            lemma_name_clean_enum8(t);
        },
        TypeM::Enum16(es) => {
            lemma_name_clean_enum16(t);
        },
        _ => {
            lemma_flat_clean(s);
        },
    }
}

/// Every well-formed type prints to a scanner-clean name: balanced
/// parentheses and no top-level comma or stray closing parenthesis, so the
/// tuple splitter passes over it whole.
#[verifier::spinoff_prover]
#[verifier::rlimit(100)]
proof fn lemma_name_clean(t: TypeM)
    requires
        t.wf(),
    ensures
        scan_clean(spec_type_name(t)),
    decreases t,
{
    match t {
        TypeM::Nullable(inner) => {
            lemma_name_clean(*inner);
            lemma_clean_wrap(nm_nullable_open(), spec_type_name(*inner));
        },
        TypeM::Array(inner) => {
            lemma_name_clean(*inner);
            lemma_clean_wrap(nm_array_open(), spec_type_name(*inner));
        },
        TypeM::LowCardinality(inner) => {
            lemma_name_clean(*inner);
            lemma_clean_wrap(nm_lowcardinality_open(), spec_type_name(*inner));
        },
        TypeM::Tuple(elems) => {
            lemma_tuple_names_balanced(*elems);
            lemma_clean_wrap(nm_tuple_open(), spec_tuple_names(*elems));
        },
        _ => {
            lemma_name_clean_value(t);
        },
    }
}

/// The joined element names of a well-formed tuple are balanced.
proof fn lemma_tuple_names_balanced(l: TypeListM)
    requires
        type_list_wf(l),
    ensures
        scan_balanced(spec_tuple_names(l)),
    decreases l,
{
    match l {
        TypeListM::Last(t) => {
            lemma_name_clean(*t);
        },
        TypeListM::Cons(t, rest) => {
            lemma_name_clean(*t);
            lemma_tuple_names_balanced(*rest);
            assert(scan_balanced(seq![44u8, 32])) by {
                lemma_flat_depth(seq![44u8, 32]);
            }
            lemma_balanced_concat(spec_type_name(*t), seq![44u8, 32]);
            lemma_balanced_concat(spec_type_name(*t) + seq![44u8, 32], spec_tuple_names(*rest));
            assert(spec_tuple_names(l) =~= (spec_type_name(*t) + seq![44u8, 32])
                + spec_tuple_names(*rest));
        },
    }
}

proof fn lemma_find_sep_skip(s: Seq<u8>, pos: int, end: int, d: int, k: int)
    requires
        0 <= pos,
        0 <= k,
        pos + k <= end,
        end <= s.len(),
        forall|i: int|
            0 <= i < k ==> !(d + depth_of(#[trigger] s.subrange(pos, pos + i)) == 0 && s[pos + i]
                == 44),
    ensures
        find_sep(s, pos, end, d) == find_sep(
            s,
            pos + k,
            end,
            d + depth_of(s.subrange(pos, pos + k)),
        ),
    decreases k,
{
    if k == 0 {
        assert(s.subrange(pos, pos) =~= Seq::<u8>::empty());
    } else {
        assert(s.subrange(pos, pos) =~= Seq::<u8>::empty());
        assert(!(d + depth_of(s.subrange(pos, pos + 0)) == 0 && s[pos + 0] == 44));
        let d1 = d + paren_delta(s[pos]);
        assert(depth_of(seq![s[pos]]) == paren_delta(s[pos])) by {
            assert(seq![s[pos]].drop_last() =~= Seq::<u8>::empty());
        }
        assert forall|i: int|
            0 <= i < k - 1 implies !(d1 + depth_of(#[trigger] s.subrange(pos + 1, pos + 1 + i))
            == 0 && s[pos + 1 + i] == 44) by {
            assert(s.subrange(pos, pos + 1 + i) =~= seq![s[pos]] + s.subrange(
                pos + 1,
                pos + 1 + i,
            ));
            lemma_depth_concat(seq![s[pos]], s.subrange(pos + 1, pos + 1 + i));
            assert(!(d + depth_of(s.subrange(pos, pos + (i + 1))) == 0 && s[pos + (i + 1)] == 44));
        }
        lemma_find_sep_skip(s, pos + 1, end, d1, k - 1);
        assert(s.subrange(pos, pos + k) =~= seq![s[pos]] + s.subrange(pos + 1, pos + k));
        lemma_depth_concat(seq![s[pos]], s.subrange(pos + 1, pos + k));
    }
}

proof fn lemma_tuple_names_min_len(l: TypeListM)
    ensures
        spec_tuple_names(l).len() >= 4,
    decreases l,
{
    match l {
        TypeListM::Last(t) => {
            lemma_type_name_min_len(*t);
        },
        TypeListM::Cons(t, rest) => {
            lemma_type_name_min_len(*t);
        },
    }
}

/// Round trip: the joined element names of a well-formed tuple read back
/// to exactly those elements.
#[verifier::spinoff_prover]
#[verifier::rlimit(100)]
proof fn lemma_parse_tuple_elems_enc(s: Seq<u8>, pos: int, l: TypeListM)
    requires
        0 <= pos,
        type_list_wf(l),
        pos + spec_tuple_names(l).len() <= s.len(),
        s.subrange(pos, pos + spec_tuple_names(l).len() as int) == spec_tuple_names(l),
    ensures
        spec_parse_tuple_elems(s, pos, pos + spec_tuple_names(l).len()) == Option::Some(l),
    decreases l, 0int,
{
    let whole = spec_tuple_names(l);
    let end = pos + whole.len() as int;
    assert(forall|j: int| pos <= j < end ==> #[trigger] s[j] == whole[j - pos]) by {
        assert(forall|j: int|
            pos <= j < end ==> s.subrange(pos, pos + whole.len() as int)[j - pos]
                == #[trigger] whole[j - pos]);
    }
    match l {
        TypeListM::Last(t) => {
            let name = spec_type_name(*t);
            lemma_name_clean(*t);
            lemma_type_name_min_len(*t);
            assert forall|i: int|
                0 <= i < name.len() implies !(0 + depth_of(
                #[trigger] s.subrange(pos, pos + i),
            ) == 0 && s[pos + i] == 44) by {
                assert(s.subrange(pos, pos + i) =~= name.take(i));
                assert(s[pos + i] == name[i]);
            }
            lemma_find_sep_skip(s, pos, end, 0, name.len() as int);
            assert(s.subrange(pos, pos + name.len() as int) =~= name);
            assert(depth_of(s.subrange(pos, pos + name.len() as int)) == 0);
            assert(find_sep(s, pos, end, 0) == end);
            lemma_parse_type_name(*t);
            assert(s.subrange(pos, end) =~= name);
        },
        TypeListM::Cons(t, rest) => {
            let name = spec_type_name(*t);
            let restenc = spec_tuple_names(*rest);
            assert(whole == name + seq![44u8, 32] + restenc);
            lemma_name_clean(*t);
            lemma_type_name_min_len(*t);
            let c = pos + name.len() as int;
            assert forall|i: int|
                0 <= i < name.len() implies !(0 + depth_of(
                #[trigger] s.subrange(pos, pos + i),
            ) == 0 && s[pos + i] == 44) by {
                assert(s.subrange(pos, pos + i) =~= name.take(i));
                assert(s[pos + i] == name[i]);
            }
            lemma_find_sep_skip(s, pos, end, 0, name.len() as int);
            assert(s.subrange(pos, pos + name.len() as int) =~= name);
            assert(depth_of(s.subrange(pos, pos + name.len() as int)) == 0);
            assert(s[c] == 44);
            assert(find_sep(s, pos, end, 0) == c);
            assert(s[c + 1] == 32);
            assert(s.subrange(pos, c) =~= name);
            lemma_parse_type_name(*t);
            assert(whole.subrange(c + 2 - pos, end - pos) =~= restenc);
            lemma_subrange_sub(s, pos, c + 2 - pos, restenc.len() as int, whole);
            lemma_parse_tuple_elems_enc(s, c + 2, *rest);
        },
    }
}

/// Round trip: parsing the canonical type string of a well-formed type
/// yields that type.
#[verifier::spinoff_prover]
#[verifier::rlimit(100)]
pub proof fn lemma_parse_type_name(t: TypeM)
    requires
        t.wf(),
    ensures
        spec_parse_type(spec_type_name(t)) == Option::Some(t),
    decreases t, 1int,
{
    let s = spec_type_name(t);
    match t {
        TypeM::FixedStr(n) => {
            lemma_parse_type_name_fixedstr(t);
        },
        TypeM::DateTime(tz) => {
            match tz {
                Option::None => {},
                Option::Some(z) => {
                    assert(s == nm_datetime_open() + z + seq![39u8, 41]);
                    assert(s.len() == 12 + z.len());
                    assert(s[s.len() - 2] == 39 && s[s.len() - 1] == 41);
                    assert(spec_starts_with(s, nm_datetime_open())) by {
                        assert(s.subrange(0, 10) =~= nm_datetime_open());
                    }
                    assert(s[0] == 68 && s[8] == 40);
                    assert(!spec_starts_with(s, nm_datetime64_open())) by {
                        if spec_starts_with(s, nm_datetime64_open()) {
                            assert(s.subrange(0, 11)[8] == s[8]);
                        }
                    }
                    assert(s.subrange(10, s.len() - 2) =~= z);
                },
            }
        },
        TypeM::DateTime64(p, tz) => {
            lemma_parse_type_name_datetime64(t);
        },
        TypeM::Decimal(p, sc) => {
            lemma_parse_type_name_decimal(t);
        },
        TypeM::Enum8(es) => {
            lemma_parse_type_name_enum8(t);
        },
        TypeM::Enum16(es) => {
            lemma_parse_type_name_enum16(t);
        },
        TypeM::LowCardinality(inner) => {
            lemma_parse_type_name_lowcardinality(t);
        },
        TypeM::Tuple(elems) => {
            lemma_parse_type_name_tuple(t);
        },
        TypeM::Nullable(inner) => {
            lemma_parse_type_name_nullable(t);
        },
        TypeM::Array(inner) => {
            lemma_parse_type_name_array(t);
        },
        _ => {},
    }
}

#[verifier::spinoff_prover]
#[verifier::rlimit(100)]
proof fn lemma_parse_type_name_tuple(t: TypeM)
    requires
        t.wf(),
        t is Tuple,
    ensures
        spec_parse_type(spec_type_name(t)) == Option::Some(t),
    decreases t, 0int,
{
    let s = spec_type_name(t);
    let l = t->Tuple_0;
    let ee = spec_tuple_names(*l);
    lemma_tuple_names_min_len(*l);
    assert(s == nm_tuple_open() + ee + seq![41u8]);
    assert(s.len() == 7 + ee.len());
    assert(s[s.len() - 1] == 41);
    assert(spec_starts_with(s, nm_tuple_open())) by {
        assert(s.subrange(0, 6) =~= nm_tuple_open());
    }
    assert(s[0] == 84);
    assert(!spec_starts_with(s, nm_datetime64_open())) by {
        if spec_starts_with(s, nm_datetime64_open()) {
            assert(s.subrange(0, 11)[0] == s[0]);
        }
    }
    assert(!spec_starts_with(s, nm_datetime_open())) by {
        if spec_starts_with(s, nm_datetime_open()) {
            assert(s.subrange(0, 10)[0] == s[0]);
        }
    }
    assert(!spec_starts_with(s, nm_decimal_open())) by {
        if spec_starts_with(s, nm_decimal_open()) {
            assert(s.subrange(0, 8)[0] == s[0]);
        }
    }
    assert(!spec_starts_with(s, nm_enum8_open())) by {
        if spec_starts_with(s, nm_enum8_open()) {
            assert(s.subrange(0, 6)[0] == s[0]);
        }
    }
    assert(!spec_starts_with(s, nm_enum16_open())) by {
        if spec_starts_with(s, nm_enum16_open()) {
            assert(s.subrange(0, 7)[0] == s[0]);
        }
    }
    assert(!spec_starts_with(s, nm_fixedstring_open())) by {
        if spec_starts_with(s, nm_fixedstring_open()) {
            assert(s.subrange(0, 12)[0] == s[0]);
        }
    }
    assert(!spec_starts_with(s, nm_nullable_open())) by {
        if spec_starts_with(s, nm_nullable_open()) {
            assert(s.subrange(0, 9)[0] == s[0]);
        }
    }
    assert(!spec_starts_with(s, nm_array_open())) by {
        if spec_starts_with(s, nm_array_open()) {
            assert(s.subrange(0, 6)[0] == s[0]);
        }
    }
    assert(!spec_starts_with(s, nm_lowcardinality_open())) by {
        if spec_starts_with(s, nm_lowcardinality_open()) {
            assert(s.subrange(0, 15)[0] == s[0]);
        }
    }
    assert(s.subrange(6, 6 + ee.len() as int) =~= ee);
    lemma_parse_tuple_elems_enc(s, 6, *l);
}

#[verifier::spinoff_prover]
#[verifier::rlimit(100)]
proof fn lemma_parse_type_name_enum8(t: TypeM)
    requires
        t.wf(),
        t is Enum8,
    ensures
        spec_parse_type(spec_type_name(t)) == Option::Some(t),
{
    let s = spec_type_name(t);
    let es = t->Enum8_0;
    let ee = spec_enum_entries_enc(es);
    assert(s == nm_enum8_open() + ee + seq![41u8]);
    assert(ee.len() >= 1) by {
        if es.len() == 1 {
            lemma_sdec_bytes(es[0].1);
        }
    }
    assert(s.len() == 7 + ee.len());
    assert(s[s.len() - 1] == 41);
    assert(spec_starts_with(s, nm_enum8_open())) by {
        assert(s.subrange(0, 6) =~= nm_enum8_open());
    }
    assert(s[0] == 69 && s[1] == 110 && s[4] == 56);
    assert(!spec_starts_with(s, nm_datetime64_open())) by {
        if spec_starts_with(s, nm_datetime64_open()) {
            assert(s.subrange(0, 11)[0] == s[0]);
        }
    }
    assert(!spec_starts_with(s, nm_datetime_open())) by {
        if spec_starts_with(s, nm_datetime_open()) {
            assert(s.subrange(0, 10)[0] == s[0]);
        }
    }
    assert(!spec_starts_with(s, nm_decimal_open())) by {
        if spec_starts_with(s, nm_decimal_open()) {
            assert(s.subrange(0, 8)[0] == s[0]);
        }
    }
    assert(s.subrange(6, 6 + ee.len() as int) =~= ee);
    lemma_parse_enum_entries_enc(s, 6, es, -128, 127);
}

#[verifier::spinoff_prover]
#[verifier::rlimit(100)]
proof fn lemma_parse_type_name_enum16(t: TypeM)
    requires
        t.wf(),
        t is Enum16,
    ensures
        spec_parse_type(spec_type_name(t)) == Option::Some(t),
{
    let s = spec_type_name(t);
    let es = t->Enum16_0;
    let ee = spec_enum_entries_enc(es);
    assert(s == nm_enum16_open() + ee + seq![41u8]);
    assert(ee.len() >= 1) by {
        if es.len() == 1 {
            lemma_sdec_bytes(es[0].1);
        }
    }
    assert(s.len() == 8 + ee.len());
    assert(s[s.len() - 1] == 41);
    assert(spec_starts_with(s, nm_enum16_open())) by {
        assert(s.subrange(0, 7) =~= nm_enum16_open());
    }
    assert(s[0] == 69 && s[1] == 110 && s[4] == 49);
    assert(!spec_starts_with(s, nm_datetime64_open())) by {
        if spec_starts_with(s, nm_datetime64_open()) {
            assert(s.subrange(0, 11)[0] == s[0]);
        }
    }
    assert(!spec_starts_with(s, nm_datetime_open())) by {
        if spec_starts_with(s, nm_datetime_open()) {
            assert(s.subrange(0, 10)[0] == s[0]);
        }
    }
    assert(!spec_starts_with(s, nm_decimal_open())) by {
        if spec_starts_with(s, nm_decimal_open()) {
            assert(s.subrange(0, 8)[0] == s[0]);
        }
    }
    assert(!spec_starts_with(s, nm_enum8_open())) by {
        if spec_starts_with(s, nm_enum8_open()) {
            assert(s.subrange(0, 6)[4] == s[4]);
        }
    }
    assert(s.subrange(7, 7 + ee.len() as int) =~= ee);
    lemma_parse_enum_entries_enc(s, 7, es, -32768, 32767);
}

#[verifier::spinoff_prover]
#[verifier::rlimit(100)]
proof fn lemma_parse_type_name_fixedstr(t: TypeM)
    requires
        t.wf(),
        t is FixedStr,
    ensures
        spec_parse_type(spec_type_name(t)) == Option::Some(t),
{
    let s = spec_type_name(t);
    let n = t->FixedStr_0;
    lemma_dec_round_trip(n);
    let d = spec_dec_enc(n);
    assert(s == nm_fixedstring_open() + d + seq![41u8]);
    assert(s.len() == 13 + d.len());
    assert(s[s.len() - 1] == 41);
    assert(spec_starts_with(s, nm_fixedstring_open())) by {
        assert(s.subrange(0, 12) =~= nm_fixedstring_open());
    }
    assert(s[0] == 70 && s[1] == 105);
    assert(s != nm_float32() && s != nm_float64());
    assert(!spec_starts_with(s, nm_decimal_open())) by {
        if spec_starts_with(s, nm_decimal_open()) {
            assert(s.subrange(0, 8)[0] == s[0]);
        }
    }
    assert(!spec_starts_with(s, nm_datetime64_open())) by {
        if spec_starts_with(s, nm_datetime64_open()) {
            assert(s.subrange(0, 11)[0] == s[0]);
        }
    }
    assert(!spec_starts_with(s, nm_enum8_open())) by {
        if spec_starts_with(s, nm_enum8_open()) {
            assert(s.subrange(0, 6)[0] == s[0]);
        }
    }
    assert(!spec_starts_with(s, nm_enum16_open())) by {
        if spec_starts_with(s, nm_enum16_open()) {
            assert(s.subrange(0, 7)[0] == s[0]);
        }
    }
    assert(s.subrange(12, s.len() - 1) =~= d);
}

#[verifier::spinoff_prover]
#[verifier::rlimit(100)]
proof fn lemma_parse_type_name_datetime64(t: TypeM)
    requires
        t.wf(),
        t is DateTime64,
    ensures
        spec_parse_type(spec_type_name(t)) == Option::Some(t),
{
    let s = spec_type_name(t);
    let p = t->DateTime64_0;
    let tz = t->DateTime64_1;
    lemma_dec_round_trip(p as nat);
    let d = spec_dec_enc(p as nat);
    match tz {
        Option::None => {
            assert(s == nm_datetime64_open() + d + seq![41u8]);
            assert(s.len() == 12 + d.len());
            assert(s[s.len() - 1] == 41);
            assert(spec_starts_with(s, nm_datetime64_open())) by {
                assert(s.subrange(0, 11) =~= nm_datetime64_open());
            }
            assert(s[0] == 68 && s[1] == 97 && s[8] == 54);
            assert(forall|j: int| 11 <= j < s.len() ==> #[trigger] s[j] != 44) by {
                assert(forall|j: int|
                    11 <= j < s.len() - 1 ==> #[trigger] s[j] == d[j - 11]);
            }
            lemma_find_byte_none(s, 11, 44);
            assert(s.subrange(11, s.len() - 1) =~= d);
        },
        Option::Some(z) => {
            assert(s == nm_datetime64_open() + d + seq![44u8, 32, 39] + z + seq![
                39u8,
                41,
            ]);
            let c = 11 + d.len() as int;
            assert(s.len() == 16 + d.len() + z.len());
            assert(s[s.len() - 1] == 41);
            assert(spec_starts_with(s, nm_datetime64_open())) by {
                assert(s.subrange(0, 11) =~= nm_datetime64_open());
            }
            assert(s[0] == 68 && s[1] == 97 && s[8] == 54);
            assert(s[c] == 44);
            assert(s[c + 1] == 32);
            assert(s[c + 2] == 39);
            assert(s[s.len() - 2] == 39);
            assert(forall|j: int| 11 <= j < c ==> #[trigger] s[j] == d[j - 11]);
            assert(forall|j: int| 11 <= j < c ==> s[j] != 44);
            lemma_find_byte_at(s, 11, 44, c);
            assert(s.subrange(11, c) =~= d);
            assert(s.subrange(c + 3, s.len() - 2) =~= z);
        },
    }
}

#[verifier::spinoff_prover]
#[verifier::rlimit(100)]
proof fn lemma_parse_type_name_decimal(t: TypeM)
    requires
        t.wf(),
        t is Decimal,
    ensures
        spec_parse_type(spec_type_name(t)) == Option::Some(t),
{
    let s = spec_type_name(t);
    let p = t->Decimal_0;
    let sc = t->Decimal_1;
    lemma_dec_round_trip(p as nat);
    lemma_dec_round_trip(sc as nat);
    let d1 = spec_dec_enc(p as nat);
    let d2 = spec_dec_enc(sc as nat);
    assert(s == nm_decimal_open() + d1 + seq![44u8, 32] + d2 + seq![41u8]);
    let c = 8 + d1.len() as int;
    assert(s.len() == 11 + d1.len() + d2.len());
    assert(s[s.len() - 1] == 41);
    assert(spec_starts_with(s, nm_decimal_open())) by {
        assert(s.subrange(0, 8) =~= nm_decimal_open());
    }
    assert(s[0] == 68 && s[1] == 101);
    assert(!spec_starts_with(s, nm_datetime64_open())) by {
        if spec_starts_with(s, nm_datetime64_open()) {
            assert(s.subrange(0, 11)[1] == s[1]);
        }
    }
    assert(s[c] == 44);
    assert(s[c + 1] == 32);
    assert(forall|j: int| 8 <= j < c ==> #[trigger] s[j] == d1[j - 8]);
    assert(forall|j: int| 8 <= j < c ==> s[j] != 44);
    lemma_find_byte_at(s, 8, 44, c);
    assert(s.subrange(8, c) =~= d1);
    assert(s.subrange(c + 2, s.len() - 1) =~= d2);
}

#[verifier::spinoff_prover]
#[verifier::rlimit(100)]
proof fn lemma_parse_type_name_lowcardinality(t: TypeM)
    requires
        t.wf(),
        t is LowCardinality,
    ensures
        spec_parse_type(spec_type_name(t)) == Option::Some(t),
    decreases t, 0int,
{
    let s = spec_type_name(t);
    let inner = t->LowCardinality_0;
    lemma_parse_type_name(*inner);
    lemma_type_name_min_len(*inner);
    let w = spec_type_name(*inner);
    assert(s == nm_lowcardinality_open() + w + seq![41u8]);
    assert(s.len() == 16 + w.len());
    assert(s[s.len() - 1] == 41);
    assert(spec_starts_with(s, nm_lowcardinality_open())) by {
        assert(s.subrange(0, 15) =~= nm_lowcardinality_open());
    }
    assert(s[0] == 76);
    assert(!spec_starts_with(s, nm_datetime64_open())) by {
        if spec_starts_with(s, nm_datetime64_open()) {
            assert(s.subrange(0, 11)[0] == s[0]);
        }
    }
    assert(!spec_starts_with(s, nm_datetime_open())) by {
        if spec_starts_with(s, nm_datetime_open()) {
            assert(s.subrange(0, 10)[0] == s[0]);
        }
    }
    assert(!spec_starts_with(s, nm_decimal_open())) by {
        if spec_starts_with(s, nm_decimal_open()) {
            assert(s.subrange(0, 8)[0] == s[0]);
        }
    }
    assert(!spec_starts_with(s, nm_fixedstring_open())) by {
        if spec_starts_with(s, nm_fixedstring_open()) {
            assert(s.subrange(0, 12)[0] == s[0]);
        }
    }
    assert(!spec_starts_with(s, nm_nullable_open())) by {
        if spec_starts_with(s, nm_nullable_open()) {
            assert(s.subrange(0, 9)[0] == s[0]);
        }
    }
    assert(!spec_starts_with(s, nm_array_open())) by {
        if spec_starts_with(s, nm_array_open()) {
            assert(s.subrange(0, 6)[0] == s[0]);
        }
    }
    assert(!spec_starts_with(s, nm_enum8_open())) by {
        if spec_starts_with(s, nm_enum8_open()) {
            assert(s.subrange(0, 6)[0] == s[0]);
        }
    }
    assert(!spec_starts_with(s, nm_enum16_open())) by {
        if spec_starts_with(s, nm_enum16_open()) {
            assert(s.subrange(0, 7)[0] == s[0]);
        }
    }
    assert(s.subrange(15, s.len() - 1) =~= w);
}

#[verifier::spinoff_prover]
#[verifier::rlimit(100)]
proof fn lemma_parse_type_name_nullable(t: TypeM)
    requires
        t.wf(),
        t is Nullable,
    ensures
        spec_parse_type(spec_type_name(t)) == Option::Some(t),
    decreases t, 0int,
{
    let s = spec_type_name(t);
    let inner = t->Nullable_0;
    lemma_parse_type_name(*inner);
    lemma_type_name_min_len(*inner);
    let w = spec_type_name(*inner);
    assert(s == nm_nullable_open() + w + seq![41u8]);
    assert(s.len() == 10 + w.len());
    assert(s[s.len() - 1] == 41);
    assert(spec_starts_with(s, nm_nullable_open())) by {
        assert(s.subrange(0, 9) =~= nm_nullable_open());
    }
    assert(s[0] == 78 && s[1] == 117);
    assert(!spec_starts_with(s, nm_decimal_open())) by {
        if spec_starts_with(s, nm_decimal_open()) {
            assert(s.subrange(0, 8)[0] == s[0]);
        }
    }
    assert(!spec_starts_with(s, nm_datetime64_open())) by {
        if spec_starts_with(s, nm_datetime64_open()) {
            assert(s.subrange(0, 11)[0] == s[0]);
        }
    }
    assert(!spec_starts_with(s, nm_enum8_open())) by {
        if spec_starts_with(s, nm_enum8_open()) {
            assert(s.subrange(0, 6)[0] == s[0]);
        }
    }
    assert(!spec_starts_with(s, nm_enum16_open())) by {
        if spec_starts_with(s, nm_enum16_open()) {
            assert(s.subrange(0, 7)[0] == s[0]);
        }
    }
    assert(s.subrange(9, s.len() - 1) =~= w);
}

#[verifier::spinoff_prover]
#[verifier::rlimit(100)]
proof fn lemma_parse_type_name_array(t: TypeM)
    requires
        t.wf(),
        t is Array,
    ensures
        spec_parse_type(spec_type_name(t)) == Option::Some(t),
    decreases t, 0int,
{
    let s = spec_type_name(t);
    let inner = t->Array_0;
    lemma_parse_type_name(*inner);
    lemma_type_name_min_len(*inner);
    let w = spec_type_name(*inner);
    assert(s == nm_array_open() + w + seq![41u8]);
    assert(s.len() == 7 + w.len());
    assert(s[s.len() - 1] == 41);
    assert(spec_starts_with(s, nm_array_open())) by {
        assert(s.subrange(0, 6) =~= nm_array_open());
    }
    assert(s[0] == 65);
    assert(!spec_starts_with(s, nm_decimal_open())) by {
        if spec_starts_with(s, nm_decimal_open()) {
            assert(s.subrange(0, 8)[0] == s[0]);
        }
    }
    assert(!spec_starts_with(s, nm_datetime64_open())) by {
        if spec_starts_with(s, nm_datetime64_open()) {
            assert(s.subrange(0, 11)[0] == s[0]);
        }
    }
    assert(!spec_starts_with(s, nm_enum8_open())) by {
        if spec_starts_with(s, nm_enum8_open()) {
            assert(s.subrange(0, 6)[0] == s[0]);
        }
    }
    assert(!spec_starts_with(s, nm_enum16_open())) by {
        if spec_starts_with(s, nm_enum16_open()) {
            assert(s.subrange(0, 7)[0] == s[0]);
        }
    }
    assert(s.subrange(6, s.len() - 1) =~= w);
}

// ---------------------------------------------------------------------------
// Column data encoding and reading
// ---------------------------------------------------------------------------
/// Wire encoding of column data: cells in their per-type layout, null flags
/// and array offsets before the inner cells.
pub open spec fn spec_data_enc(d: DataM) -> Seq<u8>
    decreases d,
{
    match d {
        DataM::UInt8(v) => v,
        DataM::UInt16(v) => enc_u16s(v),
        DataM::UInt32(v) => enc_u32s(v),
        DataM::UInt64(v) => enc_u64s(v),
        DataM::Int8(v) => v.map_values(|x: i8| x as u8),
        DataM::Int16(v) => enc_u16s(v.map_values(|x: i16| x as u16)),
        DataM::Int32(v) => enc_u32s(v.map_values(|x: i32| x as u32)),
        DataM::Int64(v) => enc_u64s(v.map_values(|x: i64| x as u64)),
        DataM::Float32(v) => enc_u32s(v),
        DataM::Float64(v) => enc_u64s(v),
        DataM::Str(v) => enc_strs(v),
        DataM::FixedStr(_, v) => enc_fixed_strs(v),
        DataM::Date(v) => enc_u16s(v),
        DataM::DateTime(_, v) => enc_u32s(v),
        DataM::DateTime64(_, _, v) => enc_u64s(v.map_values(|x: i64| x as u64)),
        DataM::Decimal(p, _, v) => if p <= 9 {
            enc_u32s(v.map_values(|x: i128| x as u32))
        } else if p <= 18 {
            enc_u64s(v.map_values(|x: i128| x as u64))
        } else {
            enc_u128s(v.map_values(|x: i128| x as u128))
        },
        DataM::Enum8(_, v) => v.map_values(|x: i8| x as u8),
        DataM::Enum16(_, v) => enc_u16s(v.map_values(|x: i16| x as u16)),
        DataM::Nullable(flags, inner) => flags + spec_data_enc(*inner),
        DataM::Array(offsets, inner) => enc_u64s(offsets) + spec_data_enc(*inner),
        DataM::LowCardinality(dict, keys) => spec_u64_to_le_bytes(1) + spec_u64_to_le_bytes(
            (*dict).rows() as u64,
        ) + spec_data_enc(*dict) + spec_u64_to_le_bytes(keys.len() as u64) + spec_lc_keys_enc(
            keys,
            (*dict).rows(),
        ),
        DataM::Tuple(elems) => spec_data_list_enc(*elems),
    }
}

/// Encoding of a tuple's element columns, back to back.
pub open spec fn spec_data_list_enc(l: DataListM) -> Seq<u8>
    decreases l,
{
    match l {
        DataListM::Last(d) => spec_data_enc(*d),
        DataListM::Cons(d, rest) => spec_data_enc(*d) + spec_data_list_enc(*rest),
    }
}

/// Width in bytes of a low-cardinality index cell, chosen by dictionary
/// size.
pub open spec fn lc_width(dict_rows: nat) -> nat {
    if dict_rows <= 0xff {
        1
    } else if dict_rows <= 0xffff {
        2
    } else if dict_rows <= 0xffffffff {
        4
    } else {
        8
    }
}

/// Encoding of low-cardinality index cells at the width the dictionary
/// size implies.
pub open spec fn spec_lc_keys_enc(keys: Seq<u64>, dict_rows: nat) -> Seq<u8> {
    if lc_width(dict_rows) == 1 {
        keys.map_values(|k: u64| k as u8)
    } else if lc_width(dict_rows) == 2 {
        enc_u16s(keys.map_values(|k: u64| k as u16))
    } else if lc_width(dict_rows) == 4 {
        enc_u32s(keys.map_values(|k: u64| k as u32))
    } else {
        enc_u64s(keys)
    }
}

/// Reader for low-cardinality index cells at the width the dictionary
/// size implies.
pub open spec fn spec_read_lc_keys(s: Seq<u8>, pos: int, n: nat, dict_rows: nat) -> ReadOutcome<
    Seq<u64>,
> {
    if lc_width(dict_rows) == 1 {
        match spec_read_u8s(s, pos, n) {
            ReadOutcome::Val(v, k) => ReadOutcome::Val(v.map_values(|x: u8| x as u64), k),
            o => o.pass(),
        }
    } else if lc_width(dict_rows) == 2 {
        match spec_read_u16s(s, pos, n) {
            ReadOutcome::Val(v, k) => ReadOutcome::Val(v.map_values(|x: u16| x as u64), k),
            o => o.pass(),
        }
    } else if lc_width(dict_rows) == 4 {
        match spec_read_u32s(s, pos, n) {
            ReadOutcome::Val(v, k) => ReadOutcome::Val(v.map_values(|x: u32| x as u64), k),
            o => o.pass(),
        }
    } else {
        spec_read_u64s(s, pos, n)
    }
}

/// Whether array offsets are cumulative: non-decreasing from row to row.
pub open spec fn spec_offsets_ok(offsets: Seq<u64>) -> bool {
    forall|i: int, j: int|
        0 <= i <= j < offsets.len() ==> #[trigger] offsets[i] <= #[trigger] offsets[j]
}

/// Reader for the data of one column of type `t` with `n` rows.
pub open spec fn spec_read_data(s: Seq<u8>, pos: int, t: TypeM, n: nat) -> ReadOutcome<DataM>
    decreases t,
{
    match t {
        TypeM::UInt8 => match spec_read_u8s(s, pos, n) {
            ReadOutcome::Val(v, k) => ReadOutcome::Val(DataM::UInt8(v), k),
            o => o.pass(),
        },
        TypeM::UInt16 => match spec_read_u16s(s, pos, n) {
            ReadOutcome::Val(v, k) => ReadOutcome::Val(DataM::UInt16(v), k),
            o => o.pass(),
        },
        TypeM::UInt32 => match spec_read_u32s(s, pos, n) {
            ReadOutcome::Val(v, k) => ReadOutcome::Val(DataM::UInt32(v), k),
            o => o.pass(),
        },
        TypeM::UInt64 => match spec_read_u64s(s, pos, n) {
            ReadOutcome::Val(v, k) => ReadOutcome::Val(DataM::UInt64(v), k),
            o => o.pass(),
        },
        TypeM::Int8 => match spec_read_u8s(s, pos, n) {
            ReadOutcome::Val(v, k) => ReadOutcome::Val(
                DataM::Int8(v.map_values(|x: u8| x as i8)),
                k,
            ),
            o => o.pass(),
        },
        TypeM::Int16 => match spec_read_u16s(s, pos, n) {
            ReadOutcome::Val(v, k) => ReadOutcome::Val(
                DataM::Int16(v.map_values(|x: u16| x as i16)),
                k,
            ),
            o => o.pass(),
        },
        TypeM::Int32 => match spec_read_u32s(s, pos, n) {
            ReadOutcome::Val(v, k) => ReadOutcome::Val(
                DataM::Int32(v.map_values(|x: u32| x as i32)),
                k,
            ),
            o => o.pass(),
        },
        TypeM::Int64 => match spec_read_u64s(s, pos, n) {
            ReadOutcome::Val(v, k) => ReadOutcome::Val(
                DataM::Int64(v.map_values(|x: u64| x as i64)),
                k,
            ),
            o => o.pass(),
        },
        TypeM::Float32 => match spec_read_u32s(s, pos, n) {
            ReadOutcome::Val(v, k) => ReadOutcome::Val(DataM::Float32(v), k),
            o => o.pass(),
        },
        TypeM::Float64 => match spec_read_u64s(s, pos, n) {
            ReadOutcome::Val(v, k) => ReadOutcome::Val(DataM::Float64(v), k),
            o => o.pass(),
        },
        TypeM::Str => match spec_read_strs(s, pos, n) {
            ReadOutcome::Val(v, k) => ReadOutcome::Val(DataM::Str(v), k),
            o => o.pass(),
        },
        TypeM::FixedStr(w) => match spec_read_fixed_strs(s, pos, n, w) {
            ReadOutcome::Val(v, k) => ReadOutcome::Val(DataM::FixedStr(w, v), k),
            o => o.pass(),
        },
        TypeM::Date => match spec_read_u16s(s, pos, n) {
            ReadOutcome::Val(v, k) => ReadOutcome::Val(DataM::Date(v), k),
            o => o.pass(),
        },
        TypeM::DateTime(tz) => match spec_read_u32s(s, pos, n) {
            ReadOutcome::Val(v, k) => ReadOutcome::Val(DataM::DateTime(tz, v), k),
            o => o.pass(),
        },
        TypeM::DateTime64(p, tz) => match spec_read_u64s(s, pos, n) {
            ReadOutcome::Val(v, k) => ReadOutcome::Val(
                DataM::DateTime64(p, tz, v.map_values(|x: u64| x as i64)),
                k,
            ),
            o => o.pass(),
        },
        TypeM::Decimal(p, sc) => if p <= 9 {
            match spec_read_u32s(s, pos, n) {
                ReadOutcome::Val(v, k) => ReadOutcome::Val(
                    DataM::Decimal(p, sc, v.map_values(|x: u32| (x as i32) as i128)),
                    k,
                ),
                o => o.pass(),
            }
        } else if p <= 18 {
            match spec_read_u64s(s, pos, n) {
                ReadOutcome::Val(v, k) => ReadOutcome::Val(
                    DataM::Decimal(p, sc, v.map_values(|x: u64| (x as i64) as i128)),
                    k,
                ),
                o => o.pass(),
            }
        } else {
            match spec_read_u128s(s, pos, n) {
                ReadOutcome::Val(v, k) => ReadOutcome::Val(
                    DataM::Decimal(p, sc, v.map_values(|x: u128| x as i128)),
                    k,
                ),
                o => o.pass(),
            }
        },
        TypeM::Enum8(es) => match spec_read_u8s(s, pos, n) {
            ReadOutcome::Val(v, k) => ReadOutcome::Val(
                DataM::Enum8(es, v.map_values(|x: u8| x as i8)),
                k,
            ),
            o => o.pass(),
        },
        TypeM::Enum16(es) => match spec_read_u16s(s, pos, n) {
            ReadOutcome::Val(v, k) => ReadOutcome::Val(
                DataM::Enum16(es, v.map_values(|x: u16| x as i16)),
                k,
            ),
            o => o.pass(),
        },
        TypeM::Nullable(inner) => match spec_read_u8s(s, pos, n) {
            ReadOutcome::Val(flags, k) => match spec_read_data(s, pos + k, *inner, n) {
                ReadOutcome::Val(d, k2) => ReadOutcome::Val(
                    DataM::Nullable(flags, Box::new(d)),
                    k + k2,
                ),
                o => o.pass(),
            },
            o => o.pass(),
        },
        TypeM::Array(inner) => match spec_read_u64s(s, pos, n) {
            ReadOutcome::Val(offsets, k) => if !spec_offsets_ok(offsets) {
                ReadOutcome::Bad(crate::errors::DriverError::BadFrame)
            } else {
                let cnt: nat = if n == 0 {
                    0
                } else {
                    offsets[n - 1] as nat
                };
                match spec_read_data(s, pos + k, *inner, cnt) {
                    ReadOutcome::Val(d, k2) => ReadOutcome::Val(
                        DataM::Array(offsets, Box::new(d)),
                        k + k2,
                    ),
                    o => o.pass(),
                }
            },
            o => o.pass(),
        },
        TypeM::LowCardinality(inner) => match spec_read_u64(s, pos) {
            ReadOutcome::Val(version, k1) => if version != 1 {
                ReadOutcome::Bad(crate::errors::DriverError::BadFrame)
            } else {
                match spec_read_u64(s, pos + k1) {
                    ReadOutcome::Val(dict_rows, k2) => match spec_read_data(
                        s,
                        pos + k1 + k2,
                        *inner,
                        dict_rows as nat,
                    ) {
                        ReadOutcome::Val(dict, k3) => match spec_read_u64(s, pos + k1 + k2 + k3) {
                            ReadOutcome::Val(nkeys, k4) => if nkeys != n {
                                ReadOutcome::Bad(crate::errors::DriverError::BadFrame)
                            } else {
                                match spec_read_lc_keys(
                                    s,
                                    pos + k1 + k2 + k3 + k4,
                                    n,
                                    dict_rows as nat,
                                ) {
                                    ReadOutcome::Val(keys, k5) => if forall|i: int|
                                        0 <= i < keys.len() ==> #[trigger] keys[i] < dict_rows {
                                        ReadOutcome::Val(
                                            DataM::LowCardinality(Box::new(dict), keys),
                                            k1 + k2 + k3 + k4 + k5,
                                        )
                                    } else {
                                        ReadOutcome::Bad(crate::errors::DriverError::BadFrame)
                                    },
                                    o => o.pass(),
                                }
                            },
                            o => o.pass(),
                        },
                        o => o.pass(),
                    },
                    o => o.pass(),
                }
            },
            o => o.pass(),
        },
        TypeM::Tuple(elems) => match spec_read_data_list(s, pos, *elems, n) {
            ReadOutcome::Val(dl, k) => ReadOutcome::Val(DataM::Tuple(Box::new(dl)), k),
            o => o.pass(),
        },
    }
}

/// Reader for a tuple's element columns, back to back, each with `n` rows.
pub open spec fn spec_read_data_list(s: Seq<u8>, pos: int, l: TypeListM, n: nat) -> ReadOutcome<
    DataListM,
>
    decreases l,
{
    match l {
        TypeListM::Last(t) => match spec_read_data(s, pos, *t, n) {
            ReadOutcome::Val(d, k) => ReadOutcome::Val(DataListM::Last(Box::new(d)), k),
            o => o.pass(),
        },
        TypeListM::Cons(t, rest) => match spec_read_data(s, pos, *t, n) {
            ReadOutcome::Val(d, k) => match spec_read_data_list(s, pos + k, *rest, n) {
                ReadOutcome::Val(dl, k2) => ReadOutcome::Val(
                    DataListM::Cons(Box::new(d), Box::new(dl)),
                    k + k2,
                ),
                o => o.pass(),
            },
            o => o.pass(),
        },
    }
}

/// Well-formed data has a row count that fits the wire's length fields.
pub proof fn lemma_wf_rows_bound(d: DataM)
    requires
        d.wf(),
    ensures
        d.rows() <= u64::MAX,
    decreases d,
{
    match d {
        DataM::Tuple(elems) => {
            assert(data_list_wf(*elems, d.rows()));
            match *elems {
                DataListM::Last(d0) => {
                    assert((*d0).wf());
                    lemma_wf_rows_bound(*d0);
                },
                DataListM::Cons(d0, rest) => {
                    assert((*d0).wf());
                    lemma_wf_rows_bound(*d0);
                },
            }
        },
        _ => {},
    }
}

/// Unsigned and signed cells of equal width stand for each other exactly.
proof fn lemma_cast_round_trips()
    ensures
        forall|x: i8| #[trigger] ((x as u8) as i8) == x,
        forall|x: i16| #[trigger] ((x as u16) as i16) == x,
        forall|x: i32| #[trigger] ((x as u32) as i32) == x,
        forall|x: i64| #[trigger] ((x as u64) as i64) == x,
        forall|x: i128|
            (-0x80000000 <= x < 0x80000000) ==> #[trigger] (((x as u32) as i32) as i128) == x,
        forall|x: i128|
            (-0x8000000000000000 <= x < 0x8000000000000000) ==> #[trigger] (((x as u64) as i64)
                as i128) == x,
        forall|x: i128| #[trigger] (((x as u128) as i128)) == x,
        forall|x: u64| x <= 0xff ==> #[trigger] ((x as u8) as u64) == x,
        forall|x: u64| x <= 0xffff ==> #[trigger] ((x as u16) as u64) == x,
        forall|x: u64| x <= 0xffffffff ==> #[trigger] ((x as u32) as u64) == x,
{
    assert(forall|x: i8| #[trigger] ((x as u8) as i8) == x) by (bit_vector);
    assert(forall|x: i16| #[trigger] ((x as u16) as i16) == x) by (bit_vector);
    assert(forall|x: i32| #[trigger] ((x as u32) as i32) == x) by (bit_vector);
    assert(forall|x: i64| #[trigger] ((x as u64) as i64) == x) by (bit_vector);
    assert(forall|x: i128|
        (-0x80000000 <= x < 0x80000000) ==> #[trigger] (((x as u32) as i32) as i128) == x)
        by (bit_vector);
    assert(forall|x: i128|
        (-0x8000000000000000 <= x < 0x8000000000000000) ==> #[trigger] (((x as u64) as i64)
            as i128) == x) by (bit_vector);
    assert(forall|x: i128| #[trigger] (((x as u128) as i128)) == x) by (bit_vector);
    assert(forall|x: u64| x <= 0xff ==> #[trigger] ((x as u8) as u64) == x) by (bit_vector);
    assert(forall|x: u64| x <= 0xffff ==> #[trigger] ((x as u16) as u64) == x) by (bit_vector);
    assert(forall|x: u64| x <= 0xffffffff ==> #[trigger] ((x as u32) as u64) == x) by (bit_vector);
}

/// Round trip: reading the encoding of well-formed column data at its own
/// type and row count yields exactly that data.
#[verifier::spinoff_prover]
#[verifier::rlimit(100)]
pub proof fn lemma_read_data_enc(s: Seq<u8>, pos: int, d: DataM)
    requires
        0 <= pos,
        d.wf(),
        pos + spec_data_enc(d).len() <= s.len(),
        s.subrange(pos, pos + spec_data_enc(d).len() as int) == spec_data_enc(d),
    ensures
        spec_read_data(s, pos, d.typ(), d.rows()) == ReadOutcome::<DataM>::Val(
            d,
            spec_data_enc(d).len() as int,
        ),
    decreases d,
{
    let whole = spec_data_enc(d);
    match d {
        DataM::UInt8(v) => {
            lemma_read_u8s_enc(s, pos, v);
        },
        DataM::UInt16(v) => {
            lemma_read_u16s_enc(s, pos, v);
        },
        DataM::UInt32(v) => {
            lemma_read_u32s_enc(s, pos, v);
        },
        DataM::UInt64(v) => {
            lemma_read_u64s_enc(s, pos, v);
        },
        DataM::Int8(v) => {
            let u = v.map_values(|x: i8| x as u8);
            lemma_read_u8s_enc(s, pos, u);
            lemma_cast_round_trips();
            assert(u.map_values(|x: u8| x as i8) =~= v);
        },
        DataM::Int16(v) => {
            let u = v.map_values(|x: i16| x as u16);
            lemma_read_u16s_enc(s, pos, u);
            lemma_cast_round_trips();
            assert(u.map_values(|x: u16| x as i16) =~= v);
        },
        DataM::Int32(v) => {
            let u = v.map_values(|x: i32| x as u32);
            lemma_read_u32s_enc(s, pos, u);
            lemma_cast_round_trips();
            assert(u.map_values(|x: u32| x as i32) =~= v);
        },
        DataM::Int64(v) => {
            let u = v.map_values(|x: i64| x as u64);
            lemma_read_u64s_enc(s, pos, u);
            lemma_cast_round_trips();
            assert(u.map_values(|x: u64| x as i64) =~= v);
        },
        DataM::Float32(v) => {
            lemma_read_u32s_enc(s, pos, v);
        },
        DataM::Float64(v) => {
            lemma_read_u64s_enc(s, pos, v);
        },
        DataM::Str(v) => {
            lemma_read_strs_enc(s, pos, v);
        },
        DataM::FixedStr(w, v) => {
            lemma_read_fixed_strs_enc(s, pos, v, w);
        },
        DataM::Date(v) => {
            lemma_read_u16s_enc(s, pos, v);
        },
        DataM::DateTime(tz, v) => {
            lemma_read_u32s_enc(s, pos, v);
        },
        DataM::DateTime64(p, tz, v) => {
            let u = v.map_values(|x: i64| x as u64);
            lemma_read_u64s_enc(s, pos, u);
            lemma_cast_round_trips();
            assert(u.map_values(|x: u64| x as i64) =~= v);
        },
        DataM::Decimal(p, sc, v) => {
            lemma_cast_round_trips();
            if p <= 9 {
                let u = v.map_values(|x: i128| x as u32);
                lemma_read_u32s_enc(s, pos, u);
                assert(u.map_values(|x: u32| (x as i32) as i128) =~= v);
            } else if p <= 18 {
                let u = v.map_values(|x: i128| x as u64);
                lemma_read_u64s_enc(s, pos, u);
                assert(u.map_values(|x: u64| (x as i64) as i128) =~= v);
            } else {
                let u = v.map_values(|x: i128| x as u128);
                lemma_read_u128s_enc(s, pos, u);
                assert(u.map_values(|x: u128| x as i128) =~= v);
            }
        },
        DataM::Enum8(es, v) => {
            let u = v.map_values(|x: i8| x as u8);
            lemma_read_u8s_enc(s, pos, u);
            lemma_cast_round_trips();
            assert(u.map_values(|x: u8| x as i8) =~= v);
        },
        DataM::Enum16(es, v) => {
            let u = v.map_values(|x: i16| x as u16);
            lemma_read_u16s_enc(s, pos, u);
            lemma_cast_round_trips();
            assert(u.map_values(|x: u16| x as i16) =~= v);
        },
        DataM::Nullable(flags, inner) => {
            let ei = spec_data_enc(*inner);
            assert(whole == flags + ei);
            assert(whole.subrange(0, flags.len() as int) =~= flags);
            lemma_subrange_sub(s, pos, 0, flags.len() as int, whole);
            lemma_read_u8s_enc(s, pos, flags);
            assert(whole.subrange(flags.len() as int, whole.len() as int) =~= ei);
            lemma_subrange_sub(s, pos, flags.len() as int, ei.len() as int, whole);
            lemma_read_data_enc(s, pos + flags.len(), *inner);
        },
        DataM::Array(offsets, inner) => {
            let eo = enc_u64s(offsets);
            let ei = spec_data_enc(*inner);
            assert(whole == eo + ei);
            assert(whole.subrange(0, eo.len() as int) =~= eo);
            lemma_subrange_sub(s, pos, 0, eo.len() as int, whole);
            lemma_read_u64s_enc(s, pos, offsets);
            assert(whole.subrange(eo.len() as int, whole.len() as int) =~= ei);
            lemma_subrange_sub(s, pos, eo.len() as int, ei.len() as int, whole);
            lemma_read_data_enc(s, pos + eo.len(), *inner);
            assert(spec_offsets_ok(offsets));
            if offsets.len() > 0 {
                assert(offsets[offsets.len() - 1] as nat == (*inner).rows());
            }
        },
        DataM::LowCardinality(dict, keys) => {
            lemma_wf_rows_bound(*dict);
            let dr = (*dict).rows();
            let e1 = spec_u64_to_le_bytes(1);
            let e2 = spec_u64_to_le_bytes(dr as u64);
            let e3 = spec_data_enc(*dict);
            let e4 = spec_u64_to_le_bytes(keys.len() as u64);
            let e5 = spec_lc_keys_enc(keys, dr);
            assert(e1.len() == 8 && e2.len() == 8 && e4.len() == 8) by {
                vstd::bytes::lemma_auto_spec_u64_to_from_le_bytes();
            }
            let o1 = 8int;
            let o2 = o1 + 8;
            let o3 = o2 + e3.len();
            let o4 = o3 + 8;
            let o5 = o4 + e5.len();
            assert(whole =~= e1 + e2 + e3 + e4 + e5);
            assert(whole.subrange(0, o1) =~= e1);
            lemma_subrange_sub(s, pos, 0, o1, whole);
            crate::binary::lemma_read_u64_enc(s, pos, 1);
            assert(whole.subrange(o1, o2) =~= e2);
            lemma_subrange_sub(s, pos, o1, 8, whole);
            crate::binary::lemma_read_u64_enc(s, pos + o1, dr as u64);
            assert(whole.subrange(o2, o3) =~= e3);
            lemma_subrange_sub(s, pos, o2, e3.len() as int, whole);
            lemma_read_data_enc(s, pos + o2, *dict);
            assert(whole.subrange(o3, o4) =~= e4);
            lemma_subrange_sub(s, pos, o3, 8, whole);
            crate::binary::lemma_read_u64_enc(s, pos + o3, keys.len() as u64);
            assert(whole.subrange(o4, o5) =~= e5);
            lemma_subrange_sub(s, pos, o4, e5.len() as int, whole);
            lemma_cast_round_trips();
            assert(forall|i: int| 0 <= i < keys.len() ==> #[trigger] keys[i] < dr as u64);
            if lc_width(dr) == 1 {
                let u = keys.map_values(|k: u64| k as u8);
                lemma_read_u8s_enc(s, pos + o4, u);
                assert(u.map_values(|x: u8| x as u64) =~= keys);
            } else if lc_width(dr) == 2 {
                let u = keys.map_values(|k: u64| k as u16);
                lemma_read_u16s_enc(s, pos + o4, u);
                assert(u.map_values(|x: u16| x as u64) =~= keys);
            } else if lc_width(dr) == 4 {
                let u = keys.map_values(|k: u64| k as u32);
                lemma_read_u32s_enc(s, pos + o4, u);
                assert(u.map_values(|x: u32| x as u64) =~= keys);
            } else {
                lemma_read_u64s_enc(s, pos + o4, keys);
            }
        },
        DataM::Tuple(elems) => {
            lemma_read_data_list_enc(s, pos, *elems, d.rows());
        },
    }
}

/// Round trip for a tuple's element columns.
proof fn lemma_read_data_list_enc(s: Seq<u8>, pos: int, l: DataListM, n: nat)
    requires
        0 <= pos,
        data_list_wf(l, n),
        pos + spec_data_list_enc(l).len() <= s.len(),
        s.subrange(pos, pos + spec_data_list_enc(l).len() as int) == spec_data_list_enc(l),
    ensures
        spec_read_data_list(s, pos, data_list_typ(l), n) == ReadOutcome::<DataListM>::Val(
            l,
            spec_data_list_enc(l).len() as int,
        ),
    decreases l,
{
    match l {
        DataListM::Last(d0) => {
            lemma_read_data_enc(s, pos, *d0);
        },
        DataListM::Cons(d0, rest) => {
            let whole = spec_data_list_enc(l);
            let e0 = spec_data_enc(*d0);
            let er = spec_data_list_enc(*rest);
            assert(whole == e0 + er);
            assert(whole.subrange(0, e0.len() as int) =~= e0);
            lemma_subrange_sub(s, pos, 0, e0.len() as int, whole);
            lemma_read_data_enc(s, pos, *d0);
            assert(whole.subrange(e0.len() as int, whole.len() as int) =~= er);
            lemma_subrange_sub(s, pos, e0.len() as int, er.len() as int, whole);
            lemma_read_data_list_enc(s, pos + e0.len(), *rest, n);
        },
    }
}

// ---------------------------------------------------------------------------
// Executable type-string printing and parsing
// ---------------------------------------------------------------------------
/// Decimal digits of `n`, most significant first.
fn dec_digits(n: u64) -> (r: Vec<u8>)
    ensures
        r@ == spec_dec_enc(n as nat),
    decreases n,
{
    if n < 10 {
        let mut out: Vec<u8> = Vec::new();
        out.push(48 + n as u8);
        assert(out@ =~= spec_dec_enc(n as nat));
        out
    } else {
        let mut out = dec_digits(n / 10);
        out.push(48 + (n % 10) as u8);
        assert(out@ =~= spec_dec_enc(n as nat));
        out
    }
}

/// Decimal digits of a signed value, a minus sign first when negative.
fn sdec_digits(v: i64) -> (r: Vec<u8>)
    requires
        v > i64::MIN,
    ensures
        r@ == spec_sdec_enc(v as int),
{
    if v < 0 {
        let mut out: Vec<u8> = Vec::new();
        out.push(45);
        let mag = dec_digits((-v) as u64);
        let n = mag.len();
        let mut i: usize = 0;
        while i < n
            invariant
                i <= n,
                n == mag@.len(),
                out@ == seq![45u8] + mag@.subrange(0, i as int),
            decreases n - i,
        {
            out.push(mag[i]);
            i = i + 1;
            assert(out@ =~= seq![45u8] + mag@.subrange(0, i as int));
        }
        assert(mag@.subrange(0, n as int) =~= mag@);
        assert(out@ =~= spec_sdec_enc(v as int));
        out
    } else {
        let out = dec_digits(v as u64);
        assert(out@ =~= spec_sdec_enc(v as int));
        out
    }
}

/// Append one enum entry: the quoted label, the equals sign, the value.
fn push_enum_entry(r: &mut Vec<u8>, label: &Vec<u8>, v: i64)
    requires
        v > i64::MIN,
    ensures
        final (r)@ == old(r)@ + spec_enum_entry_enc(label@, v as int),
{
    let ghost before = r@;
    r.push(39);
    let n = label.len();
    let mut i: usize = 0;
    while i < n
        invariant
            i <= n,
            n == label@.len(),
            r@ == before + seq![39u8] + label@.subrange(0, i as int),
        decreases n - i,
    {
        r.push(label[i]);
        i = i + 1;
        assert(r@ =~= before + seq![39u8] + label@.subrange(0, i as int));
    }
    assert(label@.subrange(0, n as int) =~= label@);
    r.push(39);
    r.push(32);
    r.push(61);
    r.push(32);
    let sd = sdec_digits(v);
    let m = sd.len();
    let ghost mid = r@;
    let mut i: usize = 0;
    while i < m
        invariant
            i <= m,
            m == sd@.len(),
            r@ == mid + sd@.subrange(0, i as int),
        decreases m - i,
    {
        r.push(sd[i]);
        i = i + 1;
        assert(r@ =~= mid + sd@.subrange(0, i as int));
    }
    assert(sd@.subrange(0, m as int) =~= sd@);
    assert(r@ =~= before + spec_enum_entry_enc(label@, v as int));
}

/// Compare a window of `v` against `lit`.
fn range_eq(v: &Vec<u8>, start: usize, end: usize, lit: &Vec<u8>) -> (r: bool)
    requires
        start <= end <= v@.len(),
    ensures
        r == (v@.subrange(start as int, end as int) == lit@),
{
    if end - start != lit.len() {
        proof {
            assert(v@.subrange(start as int, end as int).len() == end - start);
        }
        return false;
    }
    let n = lit.len();
    let mut i: usize = 0;
    while i < n
        invariant
            i <= n,
            start + n == end,
            end <= v@.len(),
            n == lit@.len(),
            forall|j: int| 0 <= j < i ==> v@[start + j] == lit@[j],
        decreases n - i,
    {
        if v[start + i] != lit[i] {
            proof {
                assert(v@.subrange(start as int, end as int)[i as int] != lit@[i as int]);
            }
            return false;
        }
        i = i + 1;
    }
    proof {
        assert(v@.subrange(start as int, end as int) =~= lit@);
    }
    true
}

/// Parse a decimal numeral window into a `u64`.
fn parse_dec(v: &Vec<u8>, start: usize, end: usize) -> (r: Option<u64>)
    requires
        start <= end <= v@.len(),
    ensures
        ({
            let digits = v@.subrange(start as int, end as int);
            match r {
                Option::Some(x) => spec_dec_ok(digits) && spec_dec_val(digits) == x,
                Option::None => !(spec_dec_ok(digits) && spec_dec_val(digits) <= u64::MAX),
            }
        }),
{
    let ghost digits = v@.subrange(start as int, end as int);
    if start == end {
        return Option::None;
    }
    if end - start > 1 && v[start] == 48 {
        return Option::None;
    }
    let n = end - start;
    let mut val: u64 = 0;
    let mut i: usize = 0;
    while i < n
        invariant
            i <= n,
            start + n == end,
            end <= v@.len(),
            digits == v@.subrange(start as int, end as int),
            forall|j: int| 0 <= j < i ==> 48 <= #[trigger] digits[j] <= 57,
            val == spec_dec_val(digits.subrange(0, i as int)),
        decreases n - i,
    {
        let b = v[start + i];
        proof {
            assert(digits[i as int] == v@[start + i]);
        }
        if b < 48 || b > 57 {
            proof {
                assert(!(48 <= digits[i as int] <= 57));
            }
            return Option::None;
        }
        let d = (b - 48) as u64;
        proof {
            assert(digits.subrange(0, i + 1).drop_last() =~= digits.subrange(0, i as int));
            assert(digits.subrange(0, i + 1).last() == digits[i as int]);
        }
        if val > (u64::MAX - d) / 10 {
            proof {
                assert(10 * val + d > u64::MAX) by (nonlinear_arith)
                    requires
                        val > (u64::MAX - d) / 10,
                        d <= 9,
                ;
                assert(spec_dec_val(digits.subrange(0, i + 1)) > u64::MAX);
                lemma_dec_val_prefix_mono(digits, i + 1, digits.len() as int);
                assert(digits.subrange(0, digits.len() as int) =~= digits);
            }
            return Option::None;
        }
        proof {
            assert(val * 10 + d <= u64::MAX) by (nonlinear_arith)
                requires
                    val <= (u64::MAX - d) / 10,
                    d <= 9,
            ;
        }
        val = val * 10 + d;
        i = i + 1;
    }
    proof {
        assert(digits.subrange(0, n as int) =~= digits);
        assert(spec_dec_ok(digits));
    }
    Option::Some(val)
}

/// A longer canonical digit prefix never has a smaller value.
proof fn lemma_dec_val_prefix_mono(s: Seq<u8>, i: int, j: int)
    requires
        0 <= i <= j <= s.len(),
    ensures
        spec_dec_val(s.subrange(0, i)) <= spec_dec_val(s.subrange(0, j)),
    decreases j - i,
{
    if i < j {
        lemma_dec_val_prefix_mono(s, i, j - 1);
        let p = s.subrange(0, j);
        assert(p.drop_last() =~= s.subrange(0, j - 1));
        assert(spec_dec_val(s.subrange(0, j - 1)) * 10 <= spec_dec_val(p)) by (nonlinear_arith)
            requires
                spec_dec_val(p) == spec_dec_val(p.drop_last()) * 10 + (if p.last() >= 48 {
                    (p.last() - 48) as nat
                } else {
                    0
                }),
                p.drop_last() == s.subrange(0, j - 1),
        ;
    }
}

/// Copy the window `v[start..end]` into an owned vector.
fn copy_window(v: &Vec<u8>, start: usize, end: usize) -> (r: Vec<u8>)
    requires
        start <= end <= v@.len(),
    ensures
        r@ == v@.subrange(start as int, end as int),
{
    let mut out: Vec<u8> = Vec::new();
    let mut i: usize = start;
    while i < end
        invariant
            start <= i <= end,
            end <= v@.len(),
            out@ == v@.subrange(start as int, i as int),
        decreases end - i,
    {
        out.push(v[i]);
        i = i + 1;
        assert(out@ =~= v@.subrange(start as int, i as int));
    }
    out
}

/// Parse an enum label map filling the window `v[start..end]`, with values
/// within `[lo, hi]`.
#[verifier::spinoff_prover]
#[verifier::rlimit(100)]
fn parse_enum_entries(v: &Vec<u8>, start: usize, end: usize, lo: i64, hi: i64) -> (r: Option<
    Vec<(Vec<u8>, i64)>,
>)
    requires
        start <= end <= v@.len(),
        lo > i64::MIN,
        0 <= hi,
    ensures
        ({
            let sr = spec_parse_enum_entries(v@, start as int, end as int, lo as int, hi as int);
            match sr {
                Option::Some(es) => r matches Option::Some(out) && out@.map_values(
                    |e: (Vec<u8>, i64)| (e.0@, e.1 as int),
                ) == es && (forall|i: int| 0 <= i < out@.len() ==> lo <= (#[trigger] out@[i]).1 <= hi),
                Option::None => r is None,
            }
        }),
{
    let mut out: Vec<(Vec<u8>, i64)> = Vec::new();
    let mut cur = start;
    loop
        invariant
            start <= cur <= end,
            end <= v@.len(),
            lo > i64::MIN,
            0 <= hi,
            forall|i: int| 0 <= i < out@.len() ==> lo <= (#[trigger] out@[i]).1 <= hi,
            spec_parse_enum_entries(v@, start as int, end as int, lo as int, hi as int) == (match
                spec_parse_enum_entries(v@, cur as int, end as int, lo as int, hi as int) {
                Option::Some(rest) => Option::Some(
                    out@.map_values(|e: (Vec<u8>, i64)| (e.0@, e.1 as int)) + rest,
                ),
                Option::None => Option::None,
            }),
        decreases end - cur,
    {
        if cur >= end {
            return Option::None;
        }
        if v[cur] != 39 {
            return Option::None;
        }
        let mut k: usize = cur + 1;
        while k < end && v[k] != 39
            invariant
                cur + 1 <= k <= end,
                end <= v@.len(),
                forall|j: int| cur + 1 <= j < k ==> #[trigger] v@[j] != 39,
            decreases end - k,
        {
            k = k + 1;
        }
        if k >= end {
            proof {
                lemma_find_byte_beyond(v@, cur as int + 1, 39, end as int);
            }
            return Option::None;
        }
        proof {
            lemma_find_byte_at(v@, cur as int + 1, 39, k as int);
        }
        if end - k < 4 || v[k + 1] != 32 || v[k + 2] != 61 || v[k + 3] != 32 {
            return Option::None;
        }
        let mut m: usize = k + 4;
        while m < end && v[m] != 44
            invariant
                k + 4 <= m <= end,
                end <= v@.len(),
                forall|j: int| k + 4 <= j < m ==> #[trigger] v@[j] != 44,
            decreases end - m,
        {
            m = m + 1;
        }
        let last = m >= end;
        proof {
            if last {
                lemma_find_byte_beyond(v@, k as int + 4, 44, end as int);
            } else {
                lemma_find_byte_at(v@, k as int + 4, 44, m as int);
            }
        }
        if !last && (end - m < 2 || v[m + 1] != 32) {
            return Option::None;
        }
        let w = if last {
            end
        } else {
            m
        };
        // parse the signed value in v[k+4..w]
        let wlen = w - (k + 4);
        let value: i64 = if wlen >= 2 && v[k + 4] == 45 {
            let mag = match parse_dec(v, k + 5, w) {
                Option::Some(x) => x,
                Option::None => {
                    proof {
                        assert(v@.subrange(k as int + 4, w as int)[0] == v@[k + 4]);
                        assert(v@.subrange(k + 5, w as int) =~= v@.subrange(
                            k as int + 4,
                            w as int,
                        ).subrange(1, (w - k - 4) as int));
                    }
                    return Option::None;
                },
            };
            proof {
                assert(v@.subrange(k as int + 4, w as int)[0] == v@[k + 4]);
                assert(v@.subrange(k + 5, w as int) =~= v@.subrange(
                    k as int + 4,
                    w as int,
                ).subrange(1, (w - k - 4) as int));
            }
            if mag < 1 {
                return Option::None;
            }
            if (mag as i128) > -(lo as i128) {
                return Option::None;
            }
            (-(mag as i128)) as i64
        } else {
            let mag = match parse_dec(v, k + 4, w) {
                Option::Some(x) => x,
                Option::None => {
                    proof {
                        if wlen >= 1 {
                            assert(v@.subrange(k as int + 4, w as int)[0] == v@[k + 4]);
                        }
                    }
                    return Option::None;
                },
            };
            proof {
                if wlen >= 1 {
                    assert(v@.subrange(k as int + 4, w as int)[0] == v@[k + 4]);
                }
            }
            if mag > hi as u64 {
                return Option::None;
            }
            mag as i64
        };
        if value < lo || value > hi {
            return Option::None;
        }
        let mut label: Vec<u8> = Vec::new();
        let mut i: usize = cur + 1;
        while i < k
            invariant
                cur + 1 <= i <= k,
                k <= end <= v@.len(),
                label@ == v@.subrange(cur as int + 1, i as int),
            decreases k - i,
        {
            label.push(v[i]);
            i = i + 1;
            assert(label@ =~= v@.subrange(cur as int + 1, i as int));
        }
        proof {
            let esm = out@.map_values(|e: (Vec<u8>, i64)| (e.0@, e.1 as int));
            let entry = (v@.subrange(cur as int + 1, k as int), value as int);
            if !last {
                let tail = spec_parse_enum_entries(
                    v@,
                    m as int + 2,
                    end as int,
                    lo as int,
                    hi as int,
                );
                match tail {
                    Option::Some(rest) => {
                        assert(esm + (seq![entry] + rest) =~= (esm + seq![entry]) + rest);
                    },
                    Option::None => {},
                }
            } else {
                assert(esm + seq![entry] =~= esm + seq![entry]);
            }
            assert(out@.push((label, value)).map_values(|e: (Vec<u8>, i64)| (e.0@, e.1 as int))
                =~= esm + seq![entry]);
        }
        out.push((label, value));
        if last {
            return Option::Some(out);
        }
        cur = m + 2;
    }
}

/// Parse the body of a `DateTime64` type string window.
#[verifier::spinoff_prover]
#[verifier::rlimit(100)]
fn parse_datetime64_body(v: &Vec<u8>, start: usize, end: usize) -> (r: Option<ColumnType>)
    requires
        start <= end <= v@.len(),
        end - start >= 13,
        v@[end as int - 1] == 41,
    ensures
        ({
            let sub = v@.subrange(start as int, end as int);
            let c = find_byte(sub, 11, 44);
            if c == sub.len() {
                let digits = sub.subrange(11, sub.len() - 1);
                if spec_dec_ok(digits) && spec_dec_val(digits) <= 9 {
                    r matches Option::Some(ct) && ct@ == TypeM::DateTime64(
                        spec_dec_val(digits) as u64,
                        Option::None,
                    )
                } else {
                    r is None
                }
            } else if c + 5 <= sub.len() && sub[c + 1] == 32 && sub[c + 2] == 39 && sub[sub.len()
                - 2] == 39 {
                let digits = sub.subrange(11, c);
                let tz = sub.subrange(c + 3, sub.len() - 2);
                if spec_dec_ok(digits) && spec_dec_val(digits) <= 9 {
                    r matches Option::Some(ct) && ct@ == TypeM::DateTime64(
                        spec_dec_val(digits) as u64,
                        Option::Some(tz),
                    )
                } else {
                    r is None
                }
            } else {
                r is None
            }
        }),
{
    let ghost sub = v@.subrange(start as int, end as int);
    let mut k: usize = start + 11;
    while k < end && v[k] != 44
        invariant
            start + 11 <= k <= end,
            end <= v@.len(),
            sub == v@.subrange(start as int, end as int),
            forall|j: int| 11 <= j < k - start ==> #[trigger] sub[j] != 44,
        decreases end - k,
    {
        proof {
            assert(sub[k - start] == v@[k as int]);
        }
        k = k + 1;
    }
    if k >= end {
        proof {
            lemma_find_byte_none(sub, 11, 44);
            assert(sub.subrange(11, sub.len() - 1) =~= v@.subrange(start + 11, end - 1));
        }
        let p = match parse_dec(v, start + 11, end - 1) {
            Option::Some(x) => x,
            Option::None => {
                return Option::None;
            },
        };
        if p <= 9 {
            return Option::Some(ColumnType::DateTime64(p, Option::None));
        }
        return Option::None;
    }
    proof {
        assert(sub[k - start] == v@[k as int]);
        lemma_find_byte_at(sub, 11, 44, k - start);
        assert(v@[end - 1] == sub[sub.len() - 1]);
        assert(k < end - 1);
    }
    if end - k < 5 || v[k + 1] != 32 || v[k + 2] != 39 || v[end - 2] != 39 {
        proof {
            assert(k - start + 5 > sub.len() || sub[k - start + 1] == v@[k + 1]);
            if k - start + 5 <= sub.len() {
                assert(sub[k - start + 1] == v@[k + 1]);
                assert(sub[k - start + 2] == v@[k + 2]);
                assert(sub[sub.len() - 2] == v@[end - 2]);
            }
        }
        return Option::None;
    }
    proof {
        assert(sub[k - start + 1] == v@[k + 1]);
        assert(sub[k - start + 2] == v@[k + 2]);
        assert(sub[sub.len() - 2] == v@[end - 2]);
        assert(sub.subrange(11, k - start) =~= v@.subrange(start + 11, k as int));
        assert(sub.subrange(k - start + 3, sub.len() - 2) =~= v@.subrange(
            k + 3,
            end - 2,
        ));
    }
    let p = match parse_dec(v, start + 11, k) {
        Option::Some(x) => x,
        Option::None => {
            return Option::None;
        },
    };
    if p > 9 {
        return Option::None;
    }
    let mut tz: Vec<u8> = Vec::new();
    let mut i: usize = k + 3;
    while i < end - 2
        invariant
            k + 3 <= i <= end - 2,
            end <= v@.len(),
            tz@ == v@.subrange(k + 3, i as int),
        decreases end - i,
    {
        tz.push(v[i]);
        i = i + 1;
        assert(tz@ =~= v@.subrange(k + 3, i as int));
    }
    return Option::Some(ColumnType::DateTime64(p, Option::Some(tz)));
}

/// Parse the body of a `Decimal` type string window.
#[verifier::spinoff_prover]
#[verifier::rlimit(100)]
fn parse_decimal_body(v: &Vec<u8>, start: usize, end: usize) -> (r: Option<ColumnType>)
    requires
        start <= end <= v@.len(),
        end - start >= 13,
        v@[end as int - 1] == 41,
    ensures
        ({
            let sub = v@.subrange(start as int, end as int);
            let c = find_byte(sub, 8, 44);
            if c < sub.len() - 1 && sub[c + 1] == 32 {
                let d1 = sub.subrange(8, c);
                let d2 = sub.subrange(c + 2, sub.len() - 1);
                if spec_dec_ok(d1) && spec_dec_ok(d2) && 1 <= spec_dec_val(d1) <= 38
                    && spec_dec_val(d2) <= spec_dec_val(d1) {
                    r matches Option::Some(ct) && ct@ == TypeM::Decimal(
                        spec_dec_val(d1) as u64,
                        spec_dec_val(d2) as u64,
                    )
                } else {
                    r is None
                }
            } else {
                r is None
            }
        }),
{
    let ghost sub = v@.subrange(start as int, end as int);
    let mut k: usize = start + 8;
    while k < end && v[k] != 44
        invariant
            start + 8 <= k <= end,
            end <= v@.len(),
            sub == v@.subrange(start as int, end as int),
            forall|j: int| 8 <= j < k - start ==> #[trigger] sub[j] != 44,
        decreases end - k,
    {
        proof {
            assert(sub[k - start] == v@[k as int]);
        }
        k = k + 1;
    }
    if k >= end {
        proof {
            lemma_find_byte_none(sub, 8, 44);
        }
        return Option::None;
    }
    proof {
        assert(sub[k - start] == v@[k as int]);
        lemma_find_byte_at(sub, 8, 44, k - start);
        assert(v@[end - 1] == sub[sub.len() - 1]);
        assert(k < end - 1);
    }
    if v[k + 1] != 32 {
        proof {
            assert(sub[k - start + 1] == v@[k + 1]);
        }
        return Option::None;
    }
    proof {
        assert(sub[k - start + 1] == v@[k + 1]);
        assert(sub.subrange(8, k - start) =~= v@.subrange(start + 8, k as int));
        assert(sub.subrange(k - start + 2, sub.len() - 1) =~= v@.subrange(
            k + 2,
            end - 1,
        ));
    }
    let p = match parse_dec(v, start + 8, k) {
        Option::Some(x) => x,
        Option::None => {
            return Option::None;
        },
    };
    let sc = match parse_dec(v, k + 2, end - 1) {
        Option::Some(x) => x,
        Option::None => {
            return Option::None;
        },
    };
    if 1 <= p && p <= 38 && sc <= p {
        return Option::Some(ColumnType::Decimal(p, sc));
    }
    return Option::None;
}

/// Parse the body of an `Enum8` type string window.
#[verifier::spinoff_prover]
#[verifier::rlimit(100)]
fn parse_enum8_body(v: &Vec<u8>, start: usize, end: usize) -> (r: Option<ColumnType>)
    requires
        start <= end <= v@.len(),
        end - start >= 8,
    ensures
        ({
            let sub = v@.subrange(start as int, end as int);
            match spec_parse_enum_entries(sub, 6, sub.len() - 1, -128, 127) {
                Option::Some(es) => r matches Option::Some(ct) && ct@ == TypeM::Enum8(es),
                Option::None => r is None,
            }
        }),
{
    let len = end - start;
    let subv = copy_window(v, start, end);
    match parse_enum_entries(&subv, 6, len - 1, -128, 127) {
        Option::Some(out) => {
            let mut conv: Vec<(Vec<u8>, i8)> = Vec::new();
            let n = out.len();
            let mut i: usize = 0;
            while i < n
                invariant
                    i <= n,
                    n == out@.len(),
                    forall|j: int| 0 <= j < out@.len() ==> -128 <= (#[trigger] out@[j]).1 <= 127,
                    conv@.map_values(|e: (Vec<u8>, i8)| (e.0@, e.1 as int)) == out@.subrange(
                        0,
                        i as int,
                    ).map_values(|e: (Vec<u8>, i64)| (e.0@, e.1 as int)),
                decreases n - i,
            {
                let lbl = crate::protocol_query::clone_bytes(&out[i].0);
                let val = out[i].1;
                let pair = (lbl, val as i8);
                proof {
                    lemma_map_push_pair8(conv@, pair);
                    lemma_map_snoc_pair64(out@, i as int);
                    assert((pair.0@, pair.1 as int) == (
                        out@[i as int].0@,
                        out@[i as int].1 as int,
                    ));
                }
                conv.push(pair);
                i = i + 1;
            }
            proof {
                assert(out@.subrange(0, n as int) =~= out@);
            }
            Option::Some(ColumnType::Enum8(conv))
        },
        Option::None => Option::None,
    }
}

/// Parse the body of an `Enum16` type string window.
#[verifier::spinoff_prover]
#[verifier::rlimit(100)]
fn parse_enum16_body(v: &Vec<u8>, start: usize, end: usize) -> (r: Option<ColumnType>)
    requires
        start <= end <= v@.len(),
        end - start >= 9,
    ensures
        ({
            let sub = v@.subrange(start as int, end as int);
            match spec_parse_enum_entries(sub, 7, sub.len() - 1, -32768, 32767) {
                Option::Some(es) => r matches Option::Some(ct) && ct@ == TypeM::Enum16(es),
                Option::None => r is None,
            }
        }),
{
    let len = end - start;
    let subv = copy_window(v, start, end);
    match parse_enum_entries(&subv, 7, len - 1, -32768, 32767) {
        Option::Some(out) => {
            let mut conv: Vec<(Vec<u8>, i16)> = Vec::new();
            let n = out.len();
            let mut i: usize = 0;
            while i < n
                invariant
                    i <= n,
                    n == out@.len(),
                    forall|j: int|
                        0 <= j < out@.len() ==> -32768 <= (#[trigger] out@[j]).1 <= 32767,
                    conv@.map_values(|e: (Vec<u8>, i16)| (e.0@, e.1 as int)) == out@.subrange(
                        0,
                        i as int,
                    ).map_values(|e: (Vec<u8>, i64)| (e.0@, e.1 as int)),
                decreases n - i,
            {
                let lbl = crate::protocol_query::clone_bytes(&out[i].0);
                let val = out[i].1;
                let pair = (lbl, val as i16);
                proof {
                    lemma_map_push_pair16(conv@, pair);
                    lemma_map_snoc_pair64(out@, i as int);
                    assert((pair.0@, pair.1 as int) == (
                        out@[i as int].0@,
                        out@[i as int].1 as int,
                    ));
                }
                conv.push(pair);
                i = i + 1;
            }
            proof {
                assert(out@.subrange(0, n as int) =~= out@);
            }
            Option::Some(ColumnType::Enum16(conv))
        },
        Option::None => Option::None,
    }
}

/// The joined element names of a tuple, comma-space separated.
fn tuple_wire_names(l: &TypeList) -> (r: Vec<u8>)
    ensures
        r@ == spec_tuple_names(type_list_view(*l)),
    decreases l,
{
    match l {
        TypeList::Last(t) => t.wire_name(),
        TypeList::Cons(t, rest) => {
            let mut r = t.wire_name();
            r.push(44);
            r.push(32);
            let ghost head = spec_type_name(type_view(**t)) + seq![44u8, 32];
            assert(r@ =~= head);
            let tail = tuple_wire_names(rest);
            let n = tail.len();
            let mut i: usize = 0;
            while i < n
                invariant
                    i <= n,
                    n == tail@.len(),
                    r@ == head + tail@.subrange(0, i as int),
                decreases n - i,
            {
                r.push(tail[i]);
                i = i + 1;
                assert(r@ =~= head + tail@.subrange(0, i as int));
            }
            assert(tail@.subrange(0, n as int) =~= tail@);
            assert(r@ =~= spec_tuple_names(type_list_view(*l)));
            r
        },
    }
}

/// Parse a tuple's element list filling the window `v[pos..end]`.
#[verifier::spinoff_prover]
#[verifier::rlimit(100)]
fn parse_tuple_elems(v: &Vec<u8>, pos: usize, end: usize) -> (r: Option<TypeList>)
    requires
        pos <= end <= v@.len(),
    ensures
        ({
            let sr = spec_parse_tuple_elems(v@, pos as int, end as int);
            match sr {
                Option::Some(lm) => r matches Option::Some(tl) && type_list_view(tl) == lm,
                Option::None => r is None,
            }
        }),
    decreases end - pos, 3int,
{
    if pos >= end {
        return Option::None;
    }
    let mut k: usize = pos;
    let mut depth: i128 = 0;
    while k < end && !(depth == 0 && v[k] == 44)
        invariant
            pos <= k <= end,
            end <= v@.len(),
            -(k - pos as int) <= depth <= k - pos as int,
            find_sep(v@, pos as int, end as int, 0) == find_sep(
                v@,
                k as int,
                end as int,
                depth as int,
            ),
        decreases end - k,
    {
        proof {
            assert(find_sep(v@, k as int, end as int, depth as int) == find_sep(
                v@,
                k as int + 1,
                end as int,
                depth as int + paren_delta(v@[k as int]),
            ));
        }
        let b = v[k];
        if b == 40 {
            depth = depth + 1;
        } else if b == 41 {
            depth = depth - 1;
        }
        k = k + 1;
    }
    if k >= end {
        proof {
            assert(find_sep(v@, k as int, end as int, depth as int) == end);
        }
        return match ColumnType::parse(v, pos, end) {
            Option::Some(t) => Option::Some(TypeList::Last(Box::new(t))),
            Option::None => Option::None,
        };
    }
    proof {
        assert(find_sep(v@, k as int, end as int, depth as int) == k as int);
    }
    if k == pos {
        return Option::None;
    }
    if end - k < 2 || v[k + 1] != 32 {
        return Option::None;
    }
    let t = match ColumnType::parse(v, pos, k) {
        Option::Some(t) => t,
        Option::None => {
            return Option::None;
        },
    };
    match parse_tuple_elems(v, k + 2, end) {
        Option::Some(rest) => Option::Some(TypeList::Cons(Box::new(t), Box::new(rest))),
        Option::None => Option::None,
    }
}

impl ColumnType {
    /// The canonical type string of this type.
    pub fn wire_name(&self) -> (r: Vec<u8>)
        ensures
            r@ == spec_type_name(self@),
        decreases self,
    {
        match self {
            ColumnType::UInt8 => {
                let r = vec![85u8, 73, 110, 116, 56];
                assert(r@ =~= nm_uint8());
                r
            },
            ColumnType::UInt16 => {
                let r = vec![85u8, 73, 110, 116, 49, 54];
                assert(r@ =~= nm_uint16());
                r
            },
            ColumnType::UInt32 => {
                let r = vec![85u8, 73, 110, 116, 51, 50];
                assert(r@ =~= nm_uint32());
                r
            },
            ColumnType::UInt64 => {
                let r = vec![85u8, 73, 110, 116, 54, 52];
                assert(r@ =~= nm_uint64());
                r
            },
            ColumnType::Int8 => {
                let r = vec![73u8, 110, 116, 56];
                assert(r@ =~= nm_int8());
                r
            },
            ColumnType::Int16 => {
                let r = vec![73u8, 110, 116, 49, 54];
                assert(r@ =~= nm_int16());
                r
            },
            ColumnType::Int32 => {
                let r = vec![73u8, 110, 116, 51, 50];
                assert(r@ =~= nm_int32());
                r
            },
            ColumnType::Int64 => {
                let r = vec![73u8, 110, 116, 54, 52];
                assert(r@ =~= nm_int64());
                r
            },
            ColumnType::Float32 => {
                let r = vec![70u8, 108, 111, 97, 116, 51, 50];
                assert(r@ =~= nm_float32());
                r
            },
            ColumnType::Float64 => {
                let r = vec![70u8, 108, 111, 97, 116, 54, 52];
                assert(r@ =~= nm_float64());
                r
            },
            ColumnType::Str => {
                let r = vec![83u8, 116, 114, 105, 110, 103];
                assert(r@ =~= nm_string());
                r
            },
            ColumnType::FixedStr(n) => {
                let mut r = vec![70u8, 105, 120, 101, 100, 83, 116, 114, 105, 110, 103, 40];
                assert(r@ =~= nm_fixedstring_open());
                let ds = dec_digits(*n);
                let mut i: usize = 0;
                let dn = ds.len();
                while i < dn
                    invariant
                        i <= dn,
                        dn == ds@.len(),
                        r@ == nm_fixedstring_open() + ds@.subrange(0, i as int),
                    decreases dn - i,
                {
                    r.push(ds[i]);
                    i = i + 1;
                    assert(r@ =~= nm_fixedstring_open() + ds@.subrange(0, i as int));
                }
                assert(ds@.subrange(0, dn as int) =~= ds@);
                r.push(41);
                assert(r@ =~= spec_type_name(self@));
                r
            },
            ColumnType::Date => {
                let r = vec![68u8, 97, 116, 101];
                assert(r@ =~= nm_date());
                r
            },
            ColumnType::DateTime(tz) => {
                match tz {
                    Option::None => {
                        let r = vec![68u8, 97, 116, 101, 84, 105, 109, 101];
                        assert(r@ =~= nm_datetime());
                        r
                    },
                    Option::Some(z) => {
                        let mut r = vec![68u8, 97, 116, 101, 84, 105, 109, 101, 40, 39];
                        assert(r@ =~= nm_datetime_open());
                        let zn = z.len();
                        let mut i: usize = 0;
                        while i < zn
                            invariant
                                i <= zn,
                                zn == z@.len(),
                                r@ == nm_datetime_open() + z@.subrange(0, i as int),
                            decreases zn - i,
                        {
                            r.push(z[i]);
                            i = i + 1;
                            assert(r@ =~= nm_datetime_open() + z@.subrange(0, i as int));
                        }
                        assert(z@.subrange(0, zn as int) =~= z@);
                        r.push(39);
                        r.push(41);
                        assert(r@ =~= spec_type_name(self@));
                        r
                    },
                }
            },
            ColumnType::DateTime64(p, tz) => {
                let mut r = vec![68u8, 97, 116, 101, 84, 105, 109, 101, 54, 52, 40];
                assert(r@ =~= nm_datetime64_open());
                let d = dec_digits(*p);
                let dn = d.len();
                let mut i: usize = 0;
                while i < dn
                    invariant
                        i <= dn,
                        dn == d@.len(),
                        r@ == nm_datetime64_open() + d@.subrange(0, i as int),
                    decreases dn - i,
                {
                    r.push(d[i]);
                    i = i + 1;
                    assert(r@ =~= nm_datetime64_open() + d@.subrange(0, i as int));
                }
                assert(d@.subrange(0, dn as int) =~= d@);
                match tz {
                    Option::None => {
                        r.push(41);
                        assert(r@ =~= spec_type_name(self@));
                        r
                    },
                    Option::Some(z) => {
                        r.push(44);
                        r.push(32);
                        r.push(39);
                        let ghost head = nm_datetime64_open() + d@ + seq![44u8, 32, 39];
                        assert(r@ =~= head);
                        let zn = z.len();
                        let mut i: usize = 0;
                        while i < zn
                            invariant
                                i <= zn,
                                zn == z@.len(),
                                r@ == head + z@.subrange(0, i as int),
                            decreases zn - i,
                        {
                            r.push(z[i]);
                            i = i + 1;
                            assert(r@ =~= head + z@.subrange(0, i as int));
                        }
                        assert(z@.subrange(0, zn as int) =~= z@);
                        r.push(39);
                        r.push(41);
                        assert(r@ =~= spec_type_name(self@));
                        r
                    },
                }
            },
            ColumnType::Decimal(p, sc) => {
                let mut r = vec![68u8, 101, 99, 105, 109, 97, 108, 40];
                assert(r@ =~= nm_decimal_open());
                let d1 = dec_digits(*p);
                let d1n = d1.len();
                let mut i: usize = 0;
                while i < d1n
                    invariant
                        i <= d1n,
                        d1n == d1@.len(),
                        r@ == nm_decimal_open() + d1@.subrange(0, i as int),
                    decreases d1n - i,
                {
                    r.push(d1[i]);
                    i = i + 1;
                    assert(r@ =~= nm_decimal_open() + d1@.subrange(0, i as int));
                }
                assert(d1@.subrange(0, d1n as int) =~= d1@);
                r.push(44);
                r.push(32);
                let ghost head = nm_decimal_open() + d1@ + seq![44u8, 32];
                assert(r@ =~= head);
                let d2 = dec_digits(*sc);
                let d2n = d2.len();
                let mut i: usize = 0;
                while i < d2n
                    invariant
                        i <= d2n,
                        d2n == d2@.len(),
                        r@ == head + d2@.subrange(0, i as int),
                    decreases d2n - i,
                {
                    r.push(d2[i]);
                    i = i + 1;
                    assert(r@ =~= head + d2@.subrange(0, i as int));
                }
                assert(d2@.subrange(0, d2n as int) =~= d2@);
                r.push(41);
                assert(r@ =~= spec_type_name(self@));
                r
            },
            ColumnType::Enum8(es) => {
                let mut r = vec![69u8, 110, 117, 109, 56, 40];
                assert(r@ =~= nm_enum8_open());
                let ghost esm = es@.map_values(|e: (Vec<u8>, i8)| (e.0@, e.1 as int));
                let n = es.len();
                let mut i: usize = 0;
                while i < n
                    invariant
                        i <= n,
                        n == es@.len(),
                        esm == es@.map_values(|e: (Vec<u8>, i8)| (e.0@, e.1 as int)),
                        r@ == nm_enum8_open() + spec_enum_entries_enc(esm.subrange(0, i as int)),
                    decreases n - i,
                {
                    if i > 0 {
                        r.push(44);
                        r.push(32);
                    }
                    push_enum_entry(&mut r, &es[i].0, es[i].1 as i64);
                    proof {
                        assert(esm[i as int] == (es@[i as int].0@, es@[i as int].1 as int));
                        if i > 0 {
                            lemma_enum_entries_snoc(esm.subrange(0, i as int), esm[i as int]);
                        } else {
                            assert(esm.subrange(0, 1) =~= seq![esm[0]]);
                            assert(seq![esm[0]][0] == esm[0]);
                        }
                        assert(esm.subrange(0, i as int).push(esm[i as int]) =~= esm.subrange(
                            0,
                            i + 1,
                        ));
                        assert(r@ =~= nm_enum8_open() + spec_enum_entries_enc(
                            esm.subrange(0, i + 1),
                        ));
                    }
                    i = i + 1;
                }
                proof {
                    assert(esm.subrange(0, n as int) =~= esm);
                }
                r.push(41);
                assert(r@ =~= spec_type_name(self@));
                r
            },
            ColumnType::Enum16(es) => {
                let mut r = vec![69u8, 110, 117, 109, 49, 54, 40];
                assert(r@ =~= nm_enum16_open());
                let ghost esm = es@.map_values(|e: (Vec<u8>, i16)| (e.0@, e.1 as int));
                let n = es.len();
                let mut i: usize = 0;
                while i < n
                    invariant
                        i <= n,
                        n == es@.len(),
                        esm == es@.map_values(|e: (Vec<u8>, i16)| (e.0@, e.1 as int)),
                        r@ == nm_enum16_open() + spec_enum_entries_enc(esm.subrange(0, i as int)),
                    decreases n - i,
                {
                    if i > 0 {
                        r.push(44);
                        r.push(32);
                    }
                    push_enum_entry(&mut r, &es[i].0, es[i].1 as i64);
                    proof {
                        assert(esm[i as int] == (es@[i as int].0@, es@[i as int].1 as int));
                        if i > 0 {
                            lemma_enum_entries_snoc(esm.subrange(0, i as int), esm[i as int]);
                        } else {
                            assert(esm.subrange(0, 1) =~= seq![esm[0]]);
                            assert(seq![esm[0]][0] == esm[0]);
                        }
                        assert(esm.subrange(0, i as int).push(esm[i as int]) =~= esm.subrange(
                            0,
                            i + 1,
                        ));
                        assert(r@ =~= nm_enum16_open() + spec_enum_entries_enc(
                            esm.subrange(0, i + 1),
                        ));
                    }
                    i = i + 1;
                }
                proof {
                    assert(esm.subrange(0, n as int) =~= esm);
                }
                r.push(41);
                assert(r@ =~= spec_type_name(self@));
                r
            },
            ColumnType::Nullable(inner) => {
                let mut r = vec![78u8, 117, 108, 108, 97, 98, 108, 101, 40];
                assert(r@ =~= nm_nullable_open());
                let w = inner.wire_name();
                let wn = w.len();
                let mut i: usize = 0;
                while i < wn
                    invariant
                        i <= wn,
                        wn == w@.len(),
                        r@ == nm_nullable_open() + w@.subrange(0, i as int),
                    decreases wn - i,
                {
                    r.push(w[i]);
                    i = i + 1;
                    assert(r@ =~= nm_nullable_open() + w@.subrange(0, i as int));
                }
                assert(w@.subrange(0, wn as int) =~= w@);
                r.push(41);
                assert(r@ =~= spec_type_name(self@));
                r
            },
            ColumnType::Array(inner) => {
                let mut r = vec![65u8, 114, 114, 97, 121, 40];
                assert(r@ =~= nm_array_open());
                let w = inner.wire_name();
                let wn = w.len();
                let mut i: usize = 0;
                while i < wn
                    invariant
                        i <= wn,
                        wn == w@.len(),
                        r@ == nm_array_open() + w@.subrange(0, i as int),
                    decreases wn - i,
                {
                    r.push(w[i]);
                    i = i + 1;
                    assert(r@ =~= nm_array_open() + w@.subrange(0, i as int));
                }
                assert(w@.subrange(0, wn as int) =~= w@);
                r.push(41);
                assert(r@ =~= spec_type_name(self@));
                r
            },
            ColumnType::LowCardinality(inner) => {
                let mut r = vec![76u8, 111, 119, 67, 97, 114, 100, 105, 110, 97, 108, 105, 116, 121, 40];
                assert(r@ =~= nm_lowcardinality_open());
                let w = inner.wire_name();
                let wn = w.len();
                let mut i: usize = 0;
                while i < wn
                    invariant
                        i <= wn,
                        wn == w@.len(),
                        r@ == nm_lowcardinality_open() + w@.subrange(0, i as int),
                    decreases wn - i,
                {
                    r.push(w[i]);
                    i = i + 1;
                    assert(r@ =~= nm_lowcardinality_open() + w@.subrange(0, i as int));
                }
                assert(w@.subrange(0, wn as int) =~= w@);
                r.push(41);
                assert(r@ =~= spec_type_name(self@));
                r
            },
            ColumnType::Tuple(elems) => {
                let mut r = vec![84u8, 117, 112, 108, 101, 40];
                assert(r@ =~= nm_tuple_open());
                let w = tuple_wire_names(elems);
                let wn = w.len();
                let mut i: usize = 0;
                while i < wn
                    invariant
                        i <= wn,
                        wn == w@.len(),
                        r@ == nm_tuple_open() + w@.subrange(0, i as int),
                    decreases wn - i,
                {
                    r.push(w[i]);
                    i = i + 1;
                    assert(r@ =~= nm_tuple_open() + w@.subrange(0, i as int));
                }
                assert(w@.subrange(0, wn as int) =~= w@);
                r.push(41);
                assert(r@ =~= spec_type_name(self@));
                r
            },
        }
    }

    /// Parse the window `v[start..end]` as a type string.
    #[verifier::spinoff_prover]
    #[verifier::rlimit(100)]
    pub fn parse(v: &Vec<u8>, start: usize, end: usize) -> (r: Option<ColumnType>)
        requires
            start <= end <= v@.len(),
        ensures
            ({
                let sr = spec_parse_type(v@.subrange(start as int, end as int));
                match sr {
                    Option::Some(t) => r matches Option::Some(ct) && ct@ == t,
                    Option::None => r is None,
                }
            }),
        decreases end - start, 2int,
    {
        let ghost sub = v@.subrange(start as int, end as int);
        let len = end - start;
        let lit_nm_uint8 = vec![85u8, 73, 110, 116, 56];
        proof {
            assert(lit_nm_uint8@ =~= nm_uint8());
        }
        if range_eq(v, start, end, &lit_nm_uint8) {
            return Option::Some(ColumnType::UInt8);
        }
        let lit_nm_uint16 = vec![85u8, 73, 110, 116, 49, 54];
        proof {
            assert(lit_nm_uint16@ =~= nm_uint16());
        }
        if range_eq(v, start, end, &lit_nm_uint16) {
            return Option::Some(ColumnType::UInt16);
        }
        let lit_nm_uint32 = vec![85u8, 73, 110, 116, 51, 50];
        proof {
            assert(lit_nm_uint32@ =~= nm_uint32());
        }
        if range_eq(v, start, end, &lit_nm_uint32) {
            return Option::Some(ColumnType::UInt32);
        }
        let lit_nm_uint64 = vec![85u8, 73, 110, 116, 54, 52];
        proof {
            assert(lit_nm_uint64@ =~= nm_uint64());
        }
        if range_eq(v, start, end, &lit_nm_uint64) {
            return Option::Some(ColumnType::UInt64);
        }
        let lit_nm_int8 = vec![73u8, 110, 116, 56];
        proof {
            assert(lit_nm_int8@ =~= nm_int8());
        }
        if range_eq(v, start, end, &lit_nm_int8) {
            return Option::Some(ColumnType::Int8);
        }
        let lit_nm_int16 = vec![73u8, 110, 116, 49, 54];
        proof {
            assert(lit_nm_int16@ =~= nm_int16());
        }
        if range_eq(v, start, end, &lit_nm_int16) {
            return Option::Some(ColumnType::Int16);
        }
        let lit_nm_int32 = vec![73u8, 110, 116, 51, 50];
        proof {
            assert(lit_nm_int32@ =~= nm_int32());
        }
        if range_eq(v, start, end, &lit_nm_int32) {
            return Option::Some(ColumnType::Int32);
        }
        let lit_nm_int64 = vec![73u8, 110, 116, 54, 52];
        proof {
            assert(lit_nm_int64@ =~= nm_int64());
        }
        if range_eq(v, start, end, &lit_nm_int64) {
            return Option::Some(ColumnType::Int64);
        }
        let lit_nm_float32 = vec![70u8, 108, 111, 97, 116, 51, 50];
        proof {
            assert(lit_nm_float32@ =~= nm_float32());
        }
        if range_eq(v, start, end, &lit_nm_float32) {
            return Option::Some(ColumnType::Float32);
        }
        let lit_nm_float64 = vec![70u8, 108, 111, 97, 116, 54, 52];
        proof {
            assert(lit_nm_float64@ =~= nm_float64());
        }
        if range_eq(v, start, end, &lit_nm_float64) {
            return Option::Some(ColumnType::Float64);
        }
        let lit_nm_string = vec![83u8, 116, 114, 105, 110, 103];
        proof {
            assert(lit_nm_string@ =~= nm_string());
        }
        if range_eq(v, start, end, &lit_nm_string) {
            return Option::Some(ColumnType::Str);
        }
        let lit_nm_date = vec![68u8, 97, 116, 101];
        proof {
            assert(lit_nm_date@ =~= nm_date());
        }
        if range_eq(v, start, end, &lit_nm_date) {
            return Option::Some(ColumnType::Date);
        }
        let lit_nm_datetime = vec![68u8, 97, 116, 101, 84, 105, 109, 101];
        proof {
            assert(lit_nm_datetime@ =~= nm_datetime());
        }
        if range_eq(v, start, end, &lit_nm_datetime) {
            return Option::Some(ColumnType::DateTime(Option::None));
        }
        proof {
            assert(sub != nm_uint8() && sub != nm_uint16() && sub != nm_uint32() && sub
                != nm_uint64() && sub != nm_int8() && sub != nm_int16() && sub != nm_int32() && sub
                != nm_int64() && sub != nm_float32() && sub != nm_float64() && sub != nm_string()
                && sub != nm_date() && sub != nm_datetime());
        }
        parse_composite(v, start, end)
    }
}

/// Parse a parenthesized (composite) type string window, after the exact
/// scalar names were ruled out.
#[verifier::spinoff_prover]
#[verifier::rlimit(100)]
fn parse_composite(v: &Vec<u8>, start: usize, end: usize) -> (r: Option<ColumnType>)
    requires
        start <= end <= v@.len(),
        v@.subrange(start as int, end as int) != nm_uint8(),
        v@.subrange(start as int, end as int) != nm_uint16(),
        v@.subrange(start as int, end as int) != nm_uint32(),
        v@.subrange(start as int, end as int) != nm_uint64(),
        v@.subrange(start as int, end as int) != nm_int8(),
        v@.subrange(start as int, end as int) != nm_int16(),
        v@.subrange(start as int, end as int) != nm_int32(),
        v@.subrange(start as int, end as int) != nm_int64(),
        v@.subrange(start as int, end as int) != nm_float32(),
        v@.subrange(start as int, end as int) != nm_float64(),
        v@.subrange(start as int, end as int) != nm_string(),
        v@.subrange(start as int, end as int) != nm_date(),
        v@.subrange(start as int, end as int) != nm_datetime(),
    ensures
        ({
            let sr = spec_parse_type(v@.subrange(start as int, end as int));
            match sr {
                Option::Some(t) => r matches Option::Some(ct) && ct@ == t,
                Option::None => r is None,
            }
        }),
    decreases end - start, 1int,
{
    let ghost sub = v@.subrange(start as int, end as int);
    let len = end - start;
        let lit_dt64_open = vec![68u8, 97, 116, 101, 84, 105, 109, 101, 54, 52, 40];
        proof {
            assert(lit_dt64_open@ =~= nm_datetime64_open());
        }
        if len >= 13 && range_eq(v, start, start + 11, &lit_dt64_open) && v[end - 1] == 41 {
            proof {
                assert(sub.subrange(0, 11) =~= v@.subrange(start as int, start + 11));
                assert(spec_starts_with(sub, nm_datetime64_open()));
                assert(sub[sub.len() - 1] == v@[end - 1]);
            }
            return parse_datetime64_body(v, start, end);
        }
        let lit_dt_open = vec![68u8, 97, 116, 101, 84, 105, 109, 101, 40, 39];
        proof {
            assert(lit_dt_open@ =~= nm_datetime_open());
        }
        if len >= 12 && range_eq(v, start, start + 10, &lit_dt_open) && v[end - 2] == 39 && v[end
            - 1] == 41 {
            proof {
                assert(sub.subrange(0, 10) =~= v@.subrange(start as int, start + 10));
                assert(spec_starts_with(sub, nm_datetime_open()));
                assert(sub[sub.len() - 2] == v@[end - 2]);
                assert(sub[sub.len() - 1] == v@[end - 1]);
            }
            let mut tz: Vec<u8> = Vec::new();
            let mut i: usize = start + 10;
            while i < end - 2
                invariant
                    start + 10 <= i <= end - 2,
                    end <= v@.len(),
                    tz@ == v@.subrange(start + 10, i as int),
                decreases end - i,
            {
                tz.push(v[i]);
                i = i + 1;
                assert(tz@ =~= v@.subrange(start + 10, i as int));
            }
            proof {
                assert(sub.subrange(10, sub.len() - 2) =~= v@.subrange(start + 10, end - 2));
            }
            return Option::Some(ColumnType::DateTime(Option::Some(tz)));
        }
        let lit_dec_open = vec![68u8, 101, 99, 105, 109, 97, 108, 40];
        proof {
            assert(lit_dec_open@ =~= nm_decimal_open());
        }
        if len >= 13 && range_eq(v, start, start + 8, &lit_dec_open) && v[end - 1] == 41 {
            proof {
                assert(sub.subrange(0, 8) =~= v@.subrange(start as int, start + 8));
                assert(spec_starts_with(sub, nm_decimal_open()));
                assert(sub[sub.len() - 1] == v@[end - 1]);
            }
            return parse_decimal_body(v, start, end);
        }
        let lit_e8_open = vec![69u8, 110, 117, 109, 56, 40];
        proof {
            assert(lit_e8_open@ =~= nm_enum8_open());
        }
        if len >= 8 && range_eq(v, start, start + 6, &lit_e8_open) && v[end - 1] == 41 {
            proof {
                assert(sub.subrange(0, 6) =~= v@.subrange(start as int, start + 6));
                assert(spec_starts_with(sub, nm_enum8_open()));
                assert(sub[sub.len() - 1] == v@[end - 1]);
            }
            return parse_enum8_body(v, start, end);
        }
        let lit_e16_open = vec![69u8, 110, 117, 109, 49, 54, 40];
        proof {
            assert(lit_e16_open@ =~= nm_enum16_open());
        }
        if len >= 9 && range_eq(v, start, start + 7, &lit_e16_open) && v[end - 1] == 41 {
            proof {
                assert(sub.subrange(0, 7) =~= v@.subrange(start as int, start + 7));
                assert(spec_starts_with(sub, nm_enum16_open()));
                assert(sub[sub.len() - 1] == v@[end - 1]);
            }
            return parse_enum16_body(v, start, end);
        }
        proof {
            if spec_starts_with(sub, nm_datetime64_open()) && sub.len() >= 13 && sub[sub.len()
                - 1] == 41 {
                assert(sub.subrange(0, 11) =~= v@.subrange(start as int, start + 11));
                assert(v@[end - 1] == sub[sub.len() - 1]);
                assert(false);
            }
            if spec_starts_with(sub, nm_datetime_open()) && sub.len() >= 12 && sub[sub.len() - 2]
                == 39 && sub[sub.len() - 1] == 41 {
                assert(sub.subrange(0, 10) =~= v@.subrange(start as int, start + 10));
                assert(v@[end - 2] == sub[sub.len() - 2]);
                assert(v@[end - 1] == sub[sub.len() - 1]);
                assert(false);
            }
            if spec_starts_with(sub, nm_decimal_open()) && sub.len() >= 13 && sub[sub.len() - 1]
                == 41 {
                assert(sub.subrange(0, 8) =~= v@.subrange(start as int, start + 8));
                assert(v@[end - 1] == sub[sub.len() - 1]);
                assert(false);
            }
            if spec_starts_with(sub, nm_enum8_open()) && sub.len() >= 8 && sub[sub.len() - 1]
                == 41 {
                assert(sub.subrange(0, 6) =~= v@.subrange(start as int, start + 6));
                assert(v@[end - 1] == sub[sub.len() - 1]);
                assert(false);
            }
            if spec_starts_with(sub, nm_enum16_open()) && sub.len() >= 9 && sub[sub.len() - 1]
                == 41 {
                assert(sub.subrange(0, 7) =~= v@.subrange(start as int, start + 7));
                assert(v@[end - 1] == sub[sub.len() - 1]);
                assert(false);
            }
        }
        parse_composite2(v, start, end)
}

/// Parse the remaining composite forms, after the exact names and the
/// value-parameter forms were ruled out.
#[verifier::spinoff_prover]
#[verifier::rlimit(100)]
fn parse_composite2(v: &Vec<u8>, start: usize, end: usize) -> (r: Option<ColumnType>)
    requires
        start <= end <= v@.len(),
        v@.subrange(start as int, end as int) != nm_uint8(),
        v@.subrange(start as int, end as int) != nm_uint16(),
        v@.subrange(start as int, end as int) != nm_uint32(),
        v@.subrange(start as int, end as int) != nm_uint64(),
        v@.subrange(start as int, end as int) != nm_int8(),
        v@.subrange(start as int, end as int) != nm_int16(),
        v@.subrange(start as int, end as int) != nm_int32(),
        v@.subrange(start as int, end as int) != nm_int64(),
        v@.subrange(start as int, end as int) != nm_float32(),
        v@.subrange(start as int, end as int) != nm_float64(),
        v@.subrange(start as int, end as int) != nm_string(),
        v@.subrange(start as int, end as int) != nm_date(),
        v@.subrange(start as int, end as int) != nm_datetime(),
        !(spec_starts_with(v@.subrange(start as int, end as int), nm_datetime64_open()) && v@.subrange(start as int, end as int).len() >= 13 && v@.subrange(start as int, end as int)[v@.subrange(start as int, end as int).len() - 1] == 41),
        !(spec_starts_with(v@.subrange(start as int, end as int), nm_datetime_open()) && v@.subrange(start as int, end as int).len() >= 12 && v@.subrange(start as int, end as int)[v@.subrange(start as int, end as int).len() - 2] == 39 && v@.subrange(start as int, end as int)[v@.subrange(start as int, end as int).len() - 1] == 41),
        !(spec_starts_with(v@.subrange(start as int, end as int), nm_decimal_open()) && v@.subrange(start as int, end as int).len() >= 13 && v@.subrange(start as int, end as int)[v@.subrange(start as int, end as int).len() - 1] == 41),
        !(spec_starts_with(v@.subrange(start as int, end as int), nm_enum8_open()) && v@.subrange(start as int, end as int).len() >= 8 && v@.subrange(start as int, end as int)[v@.subrange(start as int, end as int).len() - 1] == 41),
        !(spec_starts_with(v@.subrange(start as int, end as int), nm_enum16_open()) && v@.subrange(start as int, end as int).len() >= 9 && v@.subrange(start as int, end as int)[v@.subrange(start as int, end as int).len() - 1] == 41),
    ensures
        ({
            let sr = spec_parse_type(v@.subrange(start as int, end as int));
            match sr {
                Option::Some(t) => r matches Option::Some(ct) && ct@ == t,
                Option::None => r is None,
            }
        }),
    decreases end - start, 0int,
{
    let ghost sub = v@.subrange(start as int, end as int);
    let len = end - start;
        let lit_fs_open = vec![70u8, 105, 120, 101, 100, 83, 116, 114, 105, 110, 103, 40];
        proof {
            assert(lit_fs_open@ =~= nm_fixedstring_open());
        }
        if len >= 14 && range_eq(v, start, start + 12, &lit_fs_open) && v[end - 1] == 41 {
            proof {
                assert(sub.subrange(0, 12) =~= v@.subrange(start as int, start + 12));
                assert(spec_starts_with(sub, nm_fixedstring_open()));
                assert(sub[sub.len() - 1] == v@[end - 1]);
                assert(sub.subrange(12, sub.len() - 1) =~= v@.subrange(start + 12, end - 1));
            }
            match parse_dec(v, start + 12, end - 1) {
                Option::Some(x) => {
                    if x >= 1 {
                        return Option::Some(ColumnType::FixedStr(x));
                    } else {
                        return Option::None;
                    }
                },
                Option::None => {
                    return Option::None;
                },
            }
        }
        let lit_nu_open = vec![78u8, 117, 108, 108, 97, 98, 108, 101, 40];
        proof {
            assert(lit_nu_open@ =~= nm_nullable_open());
        }
        if len >= 11 && range_eq(v, start, start + 9, &lit_nu_open) && v[end - 1] == 41 {
            proof {
                assert(sub.subrange(0, 9) =~= v@.subrange(start as int, start + 9));
                assert(spec_starts_with(sub, nm_nullable_open()));
                assert(sub[sub.len() - 1] == v@[end - 1]);
                assert(sub.subrange(9, sub.len() - 1) =~= v@.subrange(start + 9, end - 1));
            }
            match ColumnType::parse(v, start + 9, end - 1) {
                Option::Some(t) => {
                    return Option::Some(ColumnType::Nullable(Box::new(t)));
                },
                Option::None => {
                    return Option::None;
                },
            }
        }
        let lit_ar_open = vec![65u8, 114, 114, 97, 121, 40];
        proof {
            assert(lit_ar_open@ =~= nm_array_open());
        }
        if len >= 8 && range_eq(v, start, start + 6, &lit_ar_open) && v[end - 1] == 41 {
            proof {
                assert(sub.subrange(0, 6) =~= v@.subrange(start as int, start + 6));
                assert(spec_starts_with(sub, nm_array_open()));
                assert(sub[sub.len() - 1] == v@[end - 1]);
                assert(sub.subrange(6, sub.len() - 1) =~= v@.subrange(start + 6, end - 1));
            }
            match ColumnType::parse(v, start + 6, end - 1) {
                Option::Some(t) => {
                    return Option::Some(ColumnType::Array(Box::new(t)));
                },
                Option::None => {
                    return Option::None;
                },
            }
        }
        let lit_lc_open = vec![76u8, 111, 119, 67, 97, 114, 100, 105, 110, 97, 108, 105, 116, 121, 40];
        proof {
            assert(lit_lc_open@ =~= nm_lowcardinality_open());
        }
        if len >= 17 && range_eq(v, start, start + 15, &lit_lc_open) && v[end - 1] == 41 {
            proof {
                assert(sub.subrange(0, 15) =~= v@.subrange(start as int, start + 15));
                assert(spec_starts_with(sub, nm_lowcardinality_open()));
                assert(sub[sub.len() - 1] == v@[end - 1]);
                assert(sub.subrange(15, sub.len() - 1) =~= v@.subrange(start + 15, end - 1));
            }
            match ColumnType::parse(v, start + 15, end - 1) {
                Option::Some(t) => {
                    return Option::Some(ColumnType::LowCardinality(Box::new(t)));
                },
                Option::None => {
                    return Option::None;
                },
            }
        }
        let lit_tu_open = vec![84u8, 117, 112, 108, 101, 40];
        proof {
            assert(lit_tu_open@ =~= nm_tuple_open());
        }
        if len >= 11 && range_eq(v, start, start + 6, &lit_tu_open) && v[end - 1] == 41 {
            proof {
                assert(sub.subrange(0, 6) =~= v@.subrange(start as int, start + 6));
                assert(spec_starts_with(sub, nm_tuple_open()));
                assert(sub[sub.len() - 1] == v@[end - 1]);
            }
            let subv = copy_window(v, start, end);
            match parse_tuple_elems(&subv, 6, len - 1) {
                Option::Some(tl) => {
                    return Option::Some(ColumnType::Tuple(Box::new(tl)));
                },
                Option::None => {
                    return Option::None;
                },
            }
        }
        proof {
            if spec_starts_with(sub, nm_fixedstring_open()) && sub.len() >= 14 && sub[sub.len()
                - 1] == 41 {
                assert(sub.subrange(0, 12) =~= v@.subrange(start as int, start + 12));
                assert(v@[end - 1] == sub[sub.len() - 1]);
                assert(false);
            }
            if spec_starts_with(sub, nm_nullable_open()) && sub.len() >= 11 && sub[sub.len() - 1]
                == 41 {
                assert(sub.subrange(0, 9) =~= v@.subrange(start as int, start + 9));
                assert(v@[end - 1] == sub[sub.len() - 1]);
                assert(false);
            }
            if spec_starts_with(sub, nm_array_open()) && sub.len() >= 8 && sub[sub.len() - 1]
                == 41 {
                assert(sub.subrange(0, 6) =~= v@.subrange(start as int, start + 6));
                assert(v@[end - 1] == sub[sub.len() - 1]);
                assert(false);
            }
            if spec_starts_with(sub, nm_lowcardinality_open()) && sub.len() >= 17 && sub[sub.len()
                - 1] == 41 {
                assert(sub.subrange(0, 15) =~= v@.subrange(start as int, start + 15));
                assert(v@[end - 1] == sub[sub.len() - 1]);
                assert(false);
            }
            if spec_starts_with(sub, nm_tuple_open()) && sub.len() >= 11 && sub[sub.len() - 1]
                == 41 {
                assert(sub.subrange(0, 6) =~= v@.subrange(start as int, start + 6));
                assert(v@[end - 1] == sub[sub.len() - 1]);
                assert(false);
            }
        }
        Option::None
}


// ---------------------------------------------------------------------------
// Executable data encoding
// ---------------------------------------------------------------------------
/// Append a sequence of `u16` cells.
fn write_u16s(enc: &mut Encoder, v: &Vec<u16>)
    ensures
        final (enc)@ == old(enc)@ + enc_u16s(v@),
{
    let n = v.len();
    let mut i: usize = 0;
    while i < n
        invariant
            i <= n,
            n == v@.len(),
            enc@ == old(enc)@ + enc_u16s(v@.subrange(0, i as int)),
        decreases n - i,
    {
        enc.write_u16(v[i]);
        proof {
            lemma_enc_u16s_push(v@.subrange(0, i as int), v@[i as int]);
            assert(v@.subrange(0, i as int).push(v@[i as int]) =~= v@.subrange(0, i + 1));
            assert(enc@ =~= old(enc)@ + enc_u16s(v@.subrange(0, i + 1)));
        }
        i = i + 1;
    }
    proof {
        assert(v@.subrange(0, n as int) =~= v@);
    }
}

/// Append a sequence of `u32` cells.
fn write_u32s(enc: &mut Encoder, v: &Vec<u32>)
    ensures
        final (enc)@ == old(enc)@ + enc_u32s(v@),
{
    let n = v.len();
    let mut i: usize = 0;
    while i < n
        invariant
            i <= n,
            n == v@.len(),
            enc@ == old(enc)@ + enc_u32s(v@.subrange(0, i as int)),
        decreases n - i,
    {
        enc.write_u32(v[i]);
        proof {
            lemma_enc_u32s_push(v@.subrange(0, i as int), v@[i as int]);
            assert(v@.subrange(0, i as int).push(v@[i as int]) =~= v@.subrange(0, i + 1));
            assert(enc@ =~= old(enc)@ + enc_u32s(v@.subrange(0, i + 1)));
        }
        i = i + 1;
    }
    proof {
        assert(v@.subrange(0, n as int) =~= v@);
    }
}

/// Append a sequence of `u64` cells.
fn write_u64s(enc: &mut Encoder, v: &Vec<u64>)
    ensures
        final (enc)@ == old(enc)@ + enc_u64s(v@),
{
    let n = v.len();
    let mut i: usize = 0;
    while i < n
        invariant
            i <= n,
            n == v@.len(),
            enc@ == old(enc)@ + enc_u64s(v@.subrange(0, i as int)),
        decreases n - i,
    {
        enc.write_u64(v[i]);
        proof {
            lemma_enc_u64s_push(v@.subrange(0, i as int), v@[i as int]);
            assert(v@.subrange(0, i as int).push(v@[i as int]) =~= v@.subrange(0, i + 1));
            assert(enc@ =~= old(enc)@ + enc_u64s(v@.subrange(0, i + 1)));
        }
        i = i + 1;
    }
    proof {
        assert(v@.subrange(0, n as int) =~= v@);
    }
}

/// Append signed 16-bit cells in two's complement.
fn write_i16s(enc: &mut Encoder, v: &Vec<i16>)
    ensures
        final (enc)@ == old(enc)@ + enc_u16s(v@.map_values(|x: i16| x as u16)),
{
    let ghost m = v@.map_values(|x: i16| x as u16);
    let n = v.len();
    let mut i: usize = 0;
    while i < n
        invariant
            i <= n,
            n == v@.len(),
            m == v@.map_values(|x: i16| x as u16),
            enc@ == old(enc)@ + enc_u16s(m.subrange(0, i as int)),
        decreases n - i,
    {
        enc.write_i16(v[i]);
        proof {
            assert(m[i as int] == v@[i as int] as u16);
            lemma_enc_u16s_push(m.subrange(0, i as int), m[i as int]);
            assert(m.subrange(0, i as int).push(m[i as int]) =~= m.subrange(0, i + 1));
            assert(enc@ =~= old(enc)@ + enc_u16s(m.subrange(0, i + 1)));
        }
        i = i + 1;
    }
    proof {
        assert(m.subrange(0, n as int) =~= m);
    }
}

/// Append signed 32-bit cells in two's complement.
fn write_i32s(enc: &mut Encoder, v: &Vec<i32>)
    ensures
        final (enc)@ == old(enc)@ + enc_u32s(v@.map_values(|x: i32| x as u32)),
{
    let ghost m = v@.map_values(|x: i32| x as u32);
    let n = v.len();
    let mut i: usize = 0;
    while i < n
        invariant
            i <= n,
            n == v@.len(),
            m == v@.map_values(|x: i32| x as u32),
            enc@ == old(enc)@ + enc_u32s(m.subrange(0, i as int)),
        decreases n - i,
    {
        enc.write_i32(v[i]);
        proof {
            assert(m[i as int] == v@[i as int] as u32);
            lemma_enc_u32s_push(m.subrange(0, i as int), m[i as int]);
            assert(m.subrange(0, i as int).push(m[i as int]) =~= m.subrange(0, i + 1));
            assert(enc@ =~= old(enc)@ + enc_u32s(m.subrange(0, i + 1)));
        }
        i = i + 1;
    }
    proof {
        assert(m.subrange(0, n as int) =~= m);
    }
}

/// Append signed 64-bit cells in two's complement.
fn write_i64s(enc: &mut Encoder, v: &Vec<i64>)
    ensures
        final (enc)@ == old(enc)@ + enc_u64s(v@.map_values(|x: i64| x as u64)),
{
    let ghost m = v@.map_values(|x: i64| x as u64);
    let n = v.len();
    let mut i: usize = 0;
    while i < n
        invariant
            i <= n,
            n == v@.len(),
            m == v@.map_values(|x: i64| x as u64),
            enc@ == old(enc)@ + enc_u64s(m.subrange(0, i as int)),
        decreases n - i,
    {
        enc.write_i64(v[i]);
        proof {
            assert(m[i as int] == v@[i as int] as u64);
            lemma_enc_u64s_push(m.subrange(0, i as int), m[i as int]);
            assert(m.subrange(0, i as int).push(m[i as int]) =~= m.subrange(0, i + 1));
            assert(enc@ =~= old(enc)@ + enc_u64s(m.subrange(0, i + 1)));
        }
        i = i + 1;
    }
    proof {
        assert(m.subrange(0, n as int) =~= m);
    }
}

/// Append signed byte cells in two's complement.
fn write_i8s(enc: &mut Encoder, v: &Vec<i8>)
    ensures
        final (enc)@ == old(enc)@ + v@.map_values(|x: i8| x as u8),
{
    let ghost m = v@.map_values(|x: i8| x as u8);
    let n = v.len();
    let mut i: usize = 0;
    while i < n
        invariant
            i <= n,
            n == v@.len(),
            m == v@.map_values(|x: i8| x as u8),
            enc@ == old(enc)@ + m.subrange(0, i as int),
        decreases n - i,
    {
        enc.write_i8(v[i]);
        proof {
            assert(m[i as int] == v@[i as int] as u8);
            assert(enc@ =~= old(enc)@ + m.subrange(0, i + 1));
        }
        i = i + 1;
    }
    proof {
        assert(m.subrange(0, n as int) =~= m);
    }
}

/// Append length-prefixed string cells.
fn write_strs(enc: &mut Encoder, v: &Vec<Vec<u8>>)
    ensures
        final (enc)@ == old(enc)@ + enc_strs(v@.map_values(|x: Vec<u8>| x@)),
{
    let ghost m = v@.map_values(|x: Vec<u8>| x@);
    let n = v.len();
    let mut i: usize = 0;
    while i < n
        invariant
            i <= n,
            n == v@.len(),
            m == v@.map_values(|x: Vec<u8>| x@),
            enc@ == old(enc)@ + enc_strs(m.subrange(0, i as int)),
        decreases n - i,
    {
        enc.string(&v[i]);
        proof {
            assert(m[i as int] == v@[i as int]@);
            lemma_enc_strs_push(m.subrange(0, i as int), m[i as int]);
            assert(m.subrange(0, i as int).push(m[i as int]) =~= m.subrange(0, i + 1));
            assert(enc@ =~= old(enc)@ + enc_strs(m.subrange(0, i + 1)));
        }
        i = i + 1;
    }
    proof {
        assert(m.subrange(0, n as int) =~= m);
    }
}

/// Append fixed-width string cells as raw bytes.
fn write_fixed_strs(enc: &mut Encoder, v: &Vec<Vec<u8>>)
    ensures
        final (enc)@ == old(enc)@ + enc_fixed_strs(v@.map_values(|x: Vec<u8>| x@)),
{
    let ghost m = v@.map_values(|x: Vec<u8>| x@);
    let n = v.len();
    let mut i: usize = 0;
    while i < n
        invariant
            i <= n,
            n == v@.len(),
            m == v@.map_values(|x: Vec<u8>| x@),
            enc@ == old(enc)@ + enc_fixed_strs(m.subrange(0, i as int)),
        decreases n - i,
    {
        enc.raw(&v[i]);
        proof {
            assert(m[i as int] == v@[i as int]@);
            lemma_enc_fixed_strs_push(m.subrange(0, i as int), m[i as int]);
            assert(m.subrange(0, i as int).push(m[i as int]) =~= m.subrange(0, i + 1));
            assert(enc@ =~= old(enc)@ + enc_fixed_strs(m.subrange(0, i + 1)));
        }
        i = i + 1;
    }
    proof {
        assert(m.subrange(0, n as int) =~= m);
    }
}

/// Append decimal cells four bytes wide, two's complement.
fn write_dec32s(enc: &mut Encoder, v: &Vec<i128>)
    ensures
        final (enc)@ == old(enc)@ + enc_u32s(v@.map_values(|x: i128| x as u32)),
{
    let ghost m = v@.map_values(|x: i128| x as u32);
    let n = v.len();
    let mut i: usize = 0;
    while i < n
        invariant
            i <= n,
            n == v@.len(),
            m == v@.map_values(|x: i128| x as u32),
            enc@ == old(enc)@ + enc_u32s(m.subrange(0, i as int)),
        decreases n - i,
    {
        enc.write_u32(#[verifier::truncate] (v[i] as u32));
        proof {
            assert(m[i as int] == v@[i as int] as u32);
            lemma_enc_u32s_push(m.subrange(0, i as int), m[i as int]);
            assert(m.subrange(0, i as int).push(m[i as int]) =~= m.subrange(0, i + 1));
            assert(enc@ =~= old(enc)@ + enc_u32s(m.subrange(0, i + 1)));
        }
        i = i + 1;
    }
    proof {
        assert(m.subrange(0, n as int) =~= m);
    }
}

/// Append decimal cells eight bytes wide, two's complement.
fn write_dec64s(enc: &mut Encoder, v: &Vec<i128>)
    ensures
        final (enc)@ == old(enc)@ + enc_u64s(v@.map_values(|x: i128| x as u64)),
{
    let ghost m = v@.map_values(|x: i128| x as u64);
    let n = v.len();
    let mut i: usize = 0;
    while i < n
        invariant
            i <= n,
            n == v@.len(),
            m == v@.map_values(|x: i128| x as u64),
            enc@ == old(enc)@ + enc_u64s(m.subrange(0, i as int)),
        decreases n - i,
    {
        enc.write_u64(#[verifier::truncate] (v[i] as u64));
        proof {
            assert(m[i as int] == v@[i as int] as u64);
            lemma_enc_u64s_push(m.subrange(0, i as int), m[i as int]);
            assert(m.subrange(0, i as int).push(m[i as int]) =~= m.subrange(0, i + 1));
            assert(enc@ =~= old(enc)@ + enc_u64s(m.subrange(0, i + 1)));
        }
        i = i + 1;
    }
    proof {
        assert(m.subrange(0, n as int) =~= m);
    }
}

/// Append decimal cells sixteen bytes wide, two's complement.
fn write_dec128s(enc: &mut Encoder, v: &Vec<i128>)
    ensures
        final (enc)@ == old(enc)@ + enc_u128s(v@.map_values(|x: i128| x as u128)),
{
    let ghost m = v@.map_values(|x: i128| x as u128);
    let n = v.len();
    let mut i: usize = 0;
    while i < n
        invariant
            i <= n,
            n == v@.len(),
            m == v@.map_values(|x: i128| x as u128),
            enc@ == old(enc)@ + enc_u128s(m.subrange(0, i as int)),
        decreases n - i,
    {
        enc.write_u128(v[i] as u128);
        proof {
            assert(m[i as int] == v@[i as int] as u128);
            lemma_enc_u128s_push(m.subrange(0, i as int), m[i as int]);
            assert(m.subrange(0, i as int).push(m[i as int]) =~= m.subrange(0, i + 1));
            assert(enc@ =~= old(enc)@ + enc_u128s(m.subrange(0, i + 1)));
        }
        i = i + 1;
    }
    proof {
        assert(m.subrange(0, n as int) =~= m);
    }
}

/// Append low-cardinality index cells one byte wide.
fn write_lc8s(enc: &mut Encoder, v: &Vec<u64>)
    ensures
        final (enc)@ == old(enc)@ + v@.map_values(|k: u64| k as u8),
{
    let ghost m = v@.map_values(|k: u64| k as u8);
    let n = v.len();
    let mut i: usize = 0;
    while i < n
        invariant
            i <= n,
            n == v@.len(),
            m == v@.map_values(|k: u64| k as u8),
            enc@ == old(enc)@ + m.subrange(0, i as int),
        decreases n - i,
    {
        enc.write_u8(#[verifier::truncate] (v[i] as u8));
        proof {
            assert(m[i as int] == v@[i as int] as u8);
            assert(enc@ =~= old(enc)@ + m.subrange(0, i + 1));
        }
        i = i + 1;
    }
    proof {
        assert(m.subrange(0, n as int) =~= m);
    }
}

/// Append low-cardinality index cells two bytes wide.
fn write_lc16s(enc: &mut Encoder, v: &Vec<u64>)
    ensures
        final (enc)@ == old(enc)@ + enc_u16s(v@.map_values(|k: u64| k as u16)),
{
    let ghost m = v@.map_values(|k: u64| k as u16);
    let n = v.len();
    let mut i: usize = 0;
    while i < n
        invariant
            i <= n,
            n == v@.len(),
            m == v@.map_values(|k: u64| k as u16),
            enc@ == old(enc)@ + enc_u16s(m.subrange(0, i as int)),
        decreases n - i,
    {
        enc.write_u16(#[verifier::truncate] (v[i] as u16));
        proof {
            assert(m[i as int] == v@[i as int] as u16);
            lemma_enc_u16s_push(m.subrange(0, i as int), m[i as int]);
            assert(m.subrange(0, i as int).push(m[i as int]) =~= m.subrange(0, i + 1));
            assert(enc@ =~= old(enc)@ + enc_u16s(m.subrange(0, i + 1)));
        }
        i = i + 1;
    }
    proof {
        assert(m.subrange(0, n as int) =~= m);
    }
}

/// Append low-cardinality index cells four bytes wide.
fn write_lc32s(enc: &mut Encoder, v: &Vec<u64>)
    ensures
        final (enc)@ == old(enc)@ + enc_u32s(v@.map_values(|k: u64| k as u32)),
{
    let ghost m = v@.map_values(|k: u64| k as u32);
    let n = v.len();
    let mut i: usize = 0;
    while i < n
        invariant
            i <= n,
            n == v@.len(),
            m == v@.map_values(|k: u64| k as u32),
            enc@ == old(enc)@ + enc_u32s(m.subrange(0, i as int)),
        decreases n - i,
    {
        enc.write_u32(#[verifier::truncate] (v[i] as u32));
        proof {
            assert(m[i as int] == v@[i as int] as u32);
            lemma_enc_u32s_push(m.subrange(0, i as int), m[i as int]);
            assert(m.subrange(0, i as int).push(m[i as int]) =~= m.subrange(0, i + 1));
            assert(enc@ =~= old(enc)@ + enc_u32s(m.subrange(0, i + 1)));
        }
        i = i + 1;
    }
    proof {
        assert(m.subrange(0, n as int) =~= m);
    }
}

impl ColumnData {
    /// Number of rows this column data holds.
    pub fn rows(&self) -> (r: u64)
        ensures
            r == self@.rows(),
        decreases self,
    {
        match self {
            ColumnData::UInt8(v) => v.len() as u64,
            ColumnData::UInt16(v) => v.len() as u64,
            ColumnData::UInt32(v) => v.len() as u64,
            ColumnData::UInt64(v) => v.len() as u64,
            ColumnData::Int8(v) => v.len() as u64,
            ColumnData::Int16(v) => v.len() as u64,
            ColumnData::Int32(v) => v.len() as u64,
            ColumnData::Int64(v) => v.len() as u64,
            ColumnData::Float32(v) => v.len() as u64,
            ColumnData::Float64(v) => v.len() as u64,
            ColumnData::Str(v) => v.len() as u64,
            ColumnData::FixedStr(_, v) => v.len() as u64,
            ColumnData::Date(v) => v.len() as u64,
            ColumnData::DateTime(_, v) => v.len() as u64,
            ColumnData::DateTime64(_, _, v) => v.len() as u64,
            ColumnData::Decimal(_, _, v) => v.len() as u64,
            ColumnData::Nullable(flags, _) => flags.len() as u64,
            ColumnData::Array(offsets, _) => offsets.len() as u64,
            ColumnData::LowCardinality(_, keys) => keys.len() as u64,
            ColumnData::Enum8(_, v) => v.len() as u64,
            ColumnData::Enum16(_, v) => v.len() as u64,
            ColumnData::Tuple(elems) => match &**elems {
                DataList::Last(d) => {
                    proof {
                        assert(data_list_view(**elems) == DataListM::Last(
                            Box::new(data_view(**d)),
                        ));
                    }
                    d.rows()
                },
                DataList::Cons(d, rest) => {
                    proof {
                        assert(data_list_view(**elems) == DataListM::Cons(
                            Box::new(data_view(**d)),
                            Box::new(data_list_view(**rest)),
                        ));
                    }
                    d.rows()
                },
            },
        }
    }

    /// The column type of this data.
    pub fn data_type(&self) -> (r: ColumnType)
        ensures
            r@ == self@.typ(),
        decreases self,
    {
        match self {
            ColumnData::UInt8(_) => ColumnType::UInt8,
            ColumnData::UInt16(_) => ColumnType::UInt16,
            ColumnData::UInt32(_) => ColumnType::UInt32,
            ColumnData::UInt64(_) => ColumnType::UInt64,
            ColumnData::Int8(_) => ColumnType::Int8,
            ColumnData::Int16(_) => ColumnType::Int16,
            ColumnData::Int32(_) => ColumnType::Int32,
            ColumnData::Int64(_) => ColumnType::Int64,
            ColumnData::Float32(_) => ColumnType::Float32,
            ColumnData::Float64(_) => ColumnType::Float64,
            ColumnData::Str(_) => ColumnType::Str,
            ColumnData::FixedStr(n, _) => ColumnType::FixedStr(*n),
            ColumnData::Date(_) => ColumnType::Date,
            ColumnData::DateTime(tz, _) => match tz {
                Option::Some(z) => ColumnType::DateTime(
                    Option::Some(crate::protocol_query::clone_bytes(z)),
                ),
                Option::None => ColumnType::DateTime(Option::None),
            },
            ColumnData::DateTime64(p, tz, _) => match tz {
                Option::Some(z) => ColumnType::DateTime64(
                    *p,
                    Option::Some(crate::protocol_query::clone_bytes(z)),
                ),
                Option::None => ColumnType::DateTime64(*p, Option::None),
            },
            ColumnData::Decimal(p, sc, _) => ColumnType::Decimal(*p, *sc),
            ColumnData::Nullable(_, inner) => ColumnType::Nullable(Box::new(inner.data_type())),
            ColumnData::Array(_, inner) => ColumnType::Array(Box::new(inner.data_type())),
            ColumnData::LowCardinality(dict, _) => ColumnType::LowCardinality(
                Box::new(dict.data_type()),
            ),
            ColumnData::Enum8(es, _) => ColumnType::Enum8(clone_entries8(es)),
            ColumnData::Enum16(es, _) => ColumnType::Enum16(clone_entries16(es)),
            ColumnData::Tuple(elems) => ColumnType::Tuple(Box::new(data_list_types(elems))),
        }
    }

    /// Append this column's cells in their wire layout.
    pub fn encode(&self, enc: &mut Encoder)
        ensures
            final (enc)@ == old(enc)@ + spec_data_enc(self@),
        decreases self,
    {
        match self {
            ColumnData::UInt8(v) => {
                enc.raw(v);
            },
            ColumnData::UInt16(v) => {
                write_u16s(enc, v);
            },
            ColumnData::UInt32(v) => {
                write_u32s(enc, v);
            },
            ColumnData::UInt64(v) => {
                write_u64s(enc, v);
            },
            ColumnData::Int8(v) => {
                write_i8s(enc, v);
            },
            ColumnData::Int16(v) => {
                write_i16s(enc, v);
            },
            ColumnData::Int32(v) => {
                write_i32s(enc, v);
            },
            ColumnData::Int64(v) => {
                write_i64s(enc, v);
            },
            ColumnData::Float32(v) => {
                write_u32s(enc, v);
            },
            ColumnData::Float64(v) => {
                write_u64s(enc, v);
            },
            ColumnData::Str(v) => {
                write_strs(enc, v);
            },
            ColumnData::FixedStr(_, v) => {
                write_fixed_strs(enc, v);
            },
            ColumnData::Date(v) => {
                write_u16s(enc, v);
            },
            ColumnData::DateTime(_, v) => {
                write_u32s(enc, v);
            },
            ColumnData::DateTime64(_, _, v) => {
                write_i64s(enc, v);
            },
            ColumnData::Decimal(p, _, v) => {
                if *p <= 9 {
                    write_dec32s(enc, v);
                } else if *p <= 18 {
                    write_dec64s(enc, v);
                } else {
                    write_dec128s(enc, v);
                }
            },
            ColumnData::Nullable(flags, inner) => {
                enc.raw(flags);
                inner.encode(enc);
                assert(enc@ =~= old(enc)@ + spec_data_enc(self@));
            },
            ColumnData::Array(offsets, inner) => {
                write_u64s(enc, offsets);
                inner.encode(enc);
                assert(enc@ =~= old(enc)@ + spec_data_enc(self@));
            },
            ColumnData::Enum8(_, v) => {
                write_i8s(enc, v);
            },
            ColumnData::Enum16(_, v) => {
                write_i16s(enc, v);
            },
            ColumnData::Tuple(elems) => {
                encode_data_list(enc, elems);
            },
            ColumnData::LowCardinality(dict, keys) => {
                enc.write_u64(1);
                let dr = dict.rows();
                enc.write_u64(dr);
                dict.encode(enc);
                enc.write_u64(keys.len() as u64);
                if dr <= 0xff {
                    write_lc8s(enc, keys);
                } else if dr <= 0xffff {
                    write_lc16s(enc, keys);
                } else if dr <= 0xffffffff {
                    write_lc32s(enc, keys);
                } else {
                    write_u64s(enc, keys);
                }
                assert(enc@ =~= old(enc)@ + spec_data_enc(self@));
            },
        }
    }
}

// ---------------------------------------------------------------------------
// Executable data decoding
// ---------------------------------------------------------------------------
/// Read `n` raw bytes into an owned vector.
fn read_bytes(buf: &Vec<u8>, pos: usize, n: u64) -> (r: Result<(Vec<u8>, usize), Error>)
    requires
        pos <= buf@.len(),
    ensures
        ({
            let sr = spec_read_u8s(buf@, pos as int, n as nat);
            match sr {
                ReadOutcome::Val(v, k) => r matches Ok(p) && p.0@ == v && p.0@.len() == n && pos
                    <= p.1 && p.1 == pos + k && p.1 <= buf@.len(),
                ReadOutcome::Short => r matches Err(e) && e is WouldBlock,
                ReadOutcome::Bad(d) => r matches Err(e) && e == Error::Driver(d),
            }
        }),
{
    let blen = buf.len();
    if n > (blen - pos) as u64 {
        return Err(Error::WouldBlock);
    }
    let cnt = n as usize;
    let mut out: Vec<u8> = Vec::new();
    let mut i: usize = 0;
    while i < cnt
        invariant
            i <= cnt,
            pos + cnt <= blen,
            blen == buf@.len(),
            out@ == buf@.subrange(pos as int, pos as int + i as int),
        decreases cnt - i,
    {
        out.push(buf[pos + i]);
        i = i + 1;
        assert(out@ =~= buf@.subrange(pos as int, pos as int + i as int));
    }
    Ok((out, pos + cnt))
}

/// Read `n` little-endian `u16` cells.
fn read_u16s(buf: &Vec<u8>, pos: usize, n: u64) -> (r: Result<(Vec<u16>, usize), Error>)
    requires
        pos <= buf@.len(),
    ensures
        ({
            let sr = spec_read_u16s(buf@, pos as int, n as nat);
            match sr {
                ReadOutcome::Val(v, k) => r matches Ok(p) && p.0@ == v && p.0@.len() == n && pos
                    <= p.1 && p.1 == pos + k && p.1 <= buf@.len(),
                ReadOutcome::Short => r matches Err(e) && e is WouldBlock,
                ReadOutcome::Bad(d) => r matches Err(e) && e == Error::Driver(d),
            }
        }),
{
    let mut out: Vec<u16> = Vec::new();
    let mut cur = pos;
    let mut i: u64 = 0;
    while i < n
        invariant
            i <= n,
            pos <= cur <= buf@.len(),
            out@.len() == i as nat,
            spec_read_u16s(buf@, pos as int, n as nat) == (match spec_read_u16s(
                buf@,
                cur as int,
                (n - i) as nat,
            ) {
                ReadOutcome::Val(rest, m) => ReadOutcome::<Seq<u16>>::Val(
                    out@ + rest,
                    (cur - pos) + m,
                ),
                o => o,
            }),
        decreases n - i,
    {
        let (x, np) = match crate::binary::read_u16(buf, cur) {
            Ok(p) => p,
            Err(e) => {
                return Err(e);
            },
        };
        proof {
            assert(spec_read_u16(buf@, cur as int) == ReadOutcome::<u16>::Val(x, np - cur));
            let tail = spec_read_u16s(buf@, np as int, (n - i - 1) as nat);
            match tail {
                ReadOutcome::Val(rest, m) => {
                    assert(out@ + (seq![x] + rest) =~= (out@ + seq![x]) + rest);
                },
                _ => {},
            }
        }
        let ghost out_before = out@;
        out.push(x);
        proof {
            assert(out@ =~= out_before + seq![x]);
        }
        cur = np;
        i = i + 1;
    }
    proof {
        assert(spec_read_u16s(buf@, cur as int, 0) == ReadOutcome::<Seq<u16>>::Val(
            Seq::<u16>::empty(),
            0,
        ));
        assert(out@ + Seq::<u16>::empty() =~= out@);
    }
    Ok((out, cur))
}

/// Read `n` little-endian `u32` cells.
fn read_u32s(buf: &Vec<u8>, pos: usize, n: u64) -> (r: Result<(Vec<u32>, usize), Error>)
    requires
        pos <= buf@.len(),
    ensures
        ({
            let sr = spec_read_u32s(buf@, pos as int, n as nat);
            match sr {
                ReadOutcome::Val(v, k) => r matches Ok(p) && p.0@ == v && p.0@.len() == n && pos
                    <= p.1 && p.1 == pos + k && p.1 <= buf@.len(),
                ReadOutcome::Short => r matches Err(e) && e is WouldBlock,
                ReadOutcome::Bad(d) => r matches Err(e) && e == Error::Driver(d),
            }
        }),
{
    let mut out: Vec<u32> = Vec::new();
    let mut cur = pos;
    let mut i: u64 = 0;
    while i < n
        invariant
            i <= n,
            pos <= cur <= buf@.len(),
            out@.len() == i as nat,
            spec_read_u32s(buf@, pos as int, n as nat) == (match spec_read_u32s(
                buf@,
                cur as int,
                (n - i) as nat,
            ) {
                ReadOutcome::Val(rest, m) => ReadOutcome::<Seq<u32>>::Val(
                    out@ + rest,
                    (cur - pos) + m,
                ),
                o => o,
            }),
        decreases n - i,
    {
        let (x, np) = match crate::binary::read_u32(buf, cur) {
            Ok(p) => p,
            Err(e) => {
                return Err(e);
            },
        };
        proof {
            assert(spec_read_u32(buf@, cur as int) == ReadOutcome::<u32>::Val(x, np - cur));
            let tail = spec_read_u32s(buf@, np as int, (n - i - 1) as nat);
            match tail {
                ReadOutcome::Val(rest, m) => {
                    assert(out@ + (seq![x] + rest) =~= (out@ + seq![x]) + rest);
                },
                _ => {},
            }
        }
        let ghost out_before = out@;
        out.push(x);
        proof {
            assert(out@ =~= out_before + seq![x]);
        }
        cur = np;
        i = i + 1;
    }
    proof {
        assert(spec_read_u32s(buf@, cur as int, 0) == ReadOutcome::<Seq<u32>>::Val(
            Seq::<u32>::empty(),
            0,
        ));
        assert(out@ + Seq::<u32>::empty() =~= out@);
    }
    Ok((out, cur))
}

/// Read `n` little-endian `u64` cells.
fn read_u64s(buf: &Vec<u8>, pos: usize, n: u64) -> (r: Result<(Vec<u64>, usize), Error>)
    requires
        pos <= buf@.len(),
    ensures
        ({
            let sr = spec_read_u64s(buf@, pos as int, n as nat);
            match sr {
                ReadOutcome::Val(v, k) => r matches Ok(p) && p.0@ == v && p.0@.len() == n && pos
                    <= p.1 && p.1 == pos + k && p.1 <= buf@.len(),
                ReadOutcome::Short => r matches Err(e) && e is WouldBlock,
                ReadOutcome::Bad(d) => r matches Err(e) && e == Error::Driver(d),
            }
        }),
{
    let mut out: Vec<u64> = Vec::new();
    let mut cur = pos;
    let mut i: u64 = 0;
    while i < n
        invariant
            i <= n,
            pos <= cur <= buf@.len(),
            out@.len() == i as nat,
            spec_read_u64s(buf@, pos as int, n as nat) == (match spec_read_u64s(
                buf@,
                cur as int,
                (n - i) as nat,
            ) {
                ReadOutcome::Val(rest, m) => ReadOutcome::<Seq<u64>>::Val(
                    out@ + rest,
                    (cur - pos) + m,
                ),
                o => o,
            }),
        decreases n - i,
    {
        let (x, np) = match crate::binary::read_u64(buf, cur) {
            Ok(p) => p,
            Err(e) => {
                return Err(e);
            },
        };
        proof {
            assert(spec_read_u64(buf@, cur as int) == ReadOutcome::<u64>::Val(x, np - cur));
            let tail = spec_read_u64s(buf@, np as int, (n - i - 1) as nat);
            match tail {
                ReadOutcome::Val(rest, m) => {
                    assert(out@ + (seq![x] + rest) =~= (out@ + seq![x]) + rest);
                },
                _ => {},
            }
        }
        let ghost out_before = out@;
        out.push(x);
        proof {
            assert(out@ =~= out_before + seq![x]);
        }
        cur = np;
        i = i + 1;
    }
    proof {
        assert(spec_read_u64s(buf@, cur as int, 0) == ReadOutcome::<Seq<u64>>::Val(
            Seq::<u64>::empty(),
            0,
        ));
        assert(out@ + Seq::<u64>::empty() =~= out@);
    }
    Ok((out, cur))
}

/// Read `n` little-endian `u128` cells.
fn read_u128s(buf: &Vec<u8>, pos: usize, n: u64) -> (r: Result<(Vec<u128>, usize), Error>)
    requires
        pos <= buf@.len(),
    ensures
        ({
            let sr = spec_read_u128s(buf@, pos as int, n as nat);
            match sr {
                ReadOutcome::Val(v, k) => r matches Ok(p) && p.0@ == v && p.0@.len() == n && pos
                    <= p.1 && p.1 == pos + k && p.1 <= buf@.len(),
                ReadOutcome::Short => r matches Err(e) && e is WouldBlock,
                ReadOutcome::Bad(d) => r matches Err(e) && e == Error::Driver(d),
            }
        }),
{
    let mut out: Vec<u128> = Vec::new();
    let mut cur = pos;
    let mut i: u64 = 0;
    while i < n
        invariant
            i <= n,
            pos <= cur <= buf@.len(),
            out@.len() == i as nat,
            spec_read_u128s(buf@, pos as int, n as nat) == (match spec_read_u128s(
                buf@,
                cur as int,
                (n - i) as nat,
            ) {
                ReadOutcome::Val(rest, m) => ReadOutcome::<Seq<u128>>::Val(
                    out@ + rest,
                    (cur - pos) + m,
                ),
                o => o,
            }),
        decreases n - i,
    {
        let (x, np) = match crate::binary::read_u128(buf, cur) {
            Ok(p) => p,
            Err(e) => {
                return Err(e);
            },
        };
        proof {
            assert(spec_read_u128(buf@, cur as int) == ReadOutcome::<u128>::Val(x, np - cur));
            let tail = spec_read_u128s(buf@, np as int, (n - i - 1) as nat);
            match tail {
                ReadOutcome::Val(rest, m) => {
                    assert(out@ + (seq![x] + rest) =~= (out@ + seq![x]) + rest);
                },
                _ => {},
            }
        }
        let ghost out_before = out@;
        out.push(x);
        proof {
            assert(out@ =~= out_before + seq![x]);
        }
        cur = np;
        i = i + 1;
    }
    proof {
        assert(spec_read_u128s(buf@, cur as int, 0) == ReadOutcome::<Seq<u128>>::Val(
            Seq::<u128>::empty(),
            0,
        ));
        assert(out@ + Seq::<u128>::empty() =~= out@);
    }
    Ok((out, cur))
}

/// Read `n` length-prefixed string cells.
fn read_strs(buf: &Vec<u8>, pos: usize, n: u64) -> (r: Result<(Vec<Vec<u8>>, usize), Error>)
    requires
        pos <= buf@.len(),
    ensures
        ({
            let sr = spec_read_strs(buf@, pos as int, n as nat);
            match sr {
                ReadOutcome::Val(v, k) => r matches Ok(p) && p.0@.map_values(|x: Vec<u8>| x@) == v
                    && pos <= p.1 && p.1 == pos + k && p.1 <= buf@.len(),
                ReadOutcome::Short => r matches Err(e) && e is WouldBlock,
                ReadOutcome::Bad(d) => r matches Err(e) && e == Error::Driver(d),
            }
        }),
{
    let mut out: Vec<Vec<u8>> = Vec::new();
    let mut cur = pos;
    let mut i: u64 = 0;
    while i < n
        invariant
            i <= n,
            pos <= cur <= buf@.len(),
            out@.len() == i as nat,
            spec_read_strs(buf@, pos as int, n as nat) == (match spec_read_strs(
                buf@,
                cur as int,
                (n - i) as nat,
            ) {
                ReadOutcome::Val(rest, m) => ReadOutcome::<Seq<Seq<u8>>>::Val(
                    out@.map_values(|x: Vec<u8>| x@) + rest,
                    (cur - pos) + m,
                ),
                o => o,
            }),
        decreases n - i,
    {
        let (x, np) = match crate::binary::read_string(buf, cur) {
            Ok(p) => p,
            Err(e) => {
                return Err(e);
            },
        };
        proof {
            crate::binary::lemma_read_str_progress(buf@, cur as int);
            let m0 = out@.map_values(|x: Vec<u8>| x@);
            let tail = spec_read_strs(buf@, np as int, (n - i - 1) as nat);
            match tail {
                ReadOutcome::Val(rest, m) => {
                    assert(m0 + (seq![x@] + rest) =~= (m0 + seq![x@]) + rest);
                },
                _ => {},
            }
            assert(out@.push(x).map_values(|y: Vec<u8>| y@) =~= m0 + seq![x@]);
        }
        out.push(x);
        cur = np;
        i = i + 1;
    }
    proof {
        assert(spec_read_strs(buf@, cur as int, 0) == ReadOutcome::<Seq<Seq<u8>>>::Val(
            Seq::<Seq<u8>>::empty(),
            0,
        ));
        assert(out@.map_values(|x: Vec<u8>| x@) + Seq::<Seq<u8>>::empty() =~= out@.map_values(
            |x: Vec<u8>| x@,
        ));
    }
    Ok((out, cur))
}

/// Read `n` fixed-width string cells of width `w`.
fn read_fixed_strs(buf: &Vec<u8>, pos: usize, n: u64, w: u64) -> (r: Result<
    (Vec<Vec<u8>>, usize),
    Error,
>)
    requires
        pos <= buf@.len(),
    ensures
        ({
            let sr = spec_read_fixed_strs(buf@, pos as int, n as nat, w as nat);
            match sr {
                ReadOutcome::Val(v, k) => r matches Ok(p) && p.0@.map_values(|x: Vec<u8>| x@) == v
                    && pos <= p.1 && p.1 == pos + k && p.1 <= buf@.len(),
                ReadOutcome::Short => r matches Err(e) && e is WouldBlock,
                ReadOutcome::Bad(d) => r matches Err(e) && e == Error::Driver(d),
            }
        }),
{
    let mut out: Vec<Vec<u8>> = Vec::new();
    let mut cur = pos;
    let mut i: u64 = 0;
    while i < n
        invariant
            i <= n,
            pos <= cur <= buf@.len(),
            out@.len() == i as nat,
            spec_read_fixed_strs(buf@, pos as int, n as nat, w as nat) == (match
                spec_read_fixed_strs(buf@, cur as int, (n - i) as nat, w as nat) {
                ReadOutcome::Val(rest, m) => ReadOutcome::<Seq<Seq<u8>>>::Val(
                    out@.map_values(|x: Vec<u8>| x@) + rest,
                    (cur - pos) + m,
                ),
                o => o,
            }),
        decreases n - i,
    {
        let (x, np) = match read_bytes(buf, cur, w) {
            Ok(p) => p,
            Err(e) => {
                return Err(e);
            },
        };
        proof {
            let m0 = out@.map_values(|x: Vec<u8>| x@);
            let tail = spec_read_fixed_strs(buf@, np as int, (n - i - 1) as nat, w as nat);
            match tail {
                ReadOutcome::Val(rest, m) => {
                    assert(m0 + (seq![x@] + rest) =~= (m0 + seq![x@]) + rest);
                },
                _ => {},
            }
            assert(out@.push(x).map_values(|y: Vec<u8>| y@) =~= m0 + seq![x@]);
        }
        out.push(x);
        cur = np;
        i = i + 1;
    }
    proof {
        assert(out@.map_values(|x: Vec<u8>| x@) + Seq::<Seq<u8>>::empty() =~= out@.map_values(
            |x: Vec<u8>| x@,
        ));
    }
    Ok((out, cur))
}

/// Adjacent order of offsets extends to every pair.
proof fn lemma_offsets_adjacent(offsets: Seq<u64>, i: int, j: int)
    requires
        forall|k: int| 0 < k < offsets.len() ==> #[trigger] offsets[k - 1] <= offsets[k],
        0 <= i <= j < offsets.len(),
    ensures
        offsets[i] <= offsets[j],
    decreases j - i,
{
    if i < j {
        lemma_offsets_adjacent(offsets, i, j - 1);
        assert(offsets[j - 1] <= offsets[j]);
    }
}

/// Map unsigned cells to signed ones, two's complement, 16-bit.
fn cast_i16s(v: Vec<u16>) -> (r: Vec<i16>)
    ensures
        r@ == v@.map_values(|x: u16| x as i16),
{
    let mut out: Vec<i16> = Vec::new();
    let n = v.len();
    let mut i: usize = 0;
    while i < n
        invariant
            i <= n,
            n == v@.len(),
            out@ == v@.subrange(0, i as int).map_values(|x: u16| x as i16),
        decreases n - i,
    {
        out.push(v[i] as i16);
        i = i + 1;
        assert(out@ =~= v@.subrange(0, i as int).map_values(|x: u16| x as i16));
    }
    assert(v@.subrange(0, n as int) =~= v@);
    out
}

/// Map unsigned cells to signed ones, two's complement, 32-bit.
fn cast_i32s(v: Vec<u32>) -> (r: Vec<i32>)
    ensures
        r@ == v@.map_values(|x: u32| x as i32),
{
    let mut out: Vec<i32> = Vec::new();
    let n = v.len();
    let mut i: usize = 0;
    while i < n
        invariant
            i <= n,
            n == v@.len(),
            out@ == v@.subrange(0, i as int).map_values(|x: u32| x as i32),
        decreases n - i,
    {
        out.push(v[i] as i32);
        i = i + 1;
        assert(out@ =~= v@.subrange(0, i as int).map_values(|x: u32| x as i32));
    }
    assert(v@.subrange(0, n as int) =~= v@);
    out
}

/// Map unsigned cells to signed ones, two's complement, 64-bit.
fn cast_i64s(v: Vec<u64>) -> (r: Vec<i64>)
    ensures
        r@ == v@.map_values(|x: u64| x as i64),
{
    let mut out: Vec<i64> = Vec::new();
    let n = v.len();
    let mut i: usize = 0;
    while i < n
        invariant
            i <= n,
            n == v@.len(),
            out@ == v@.subrange(0, i as int).map_values(|x: u64| x as i64),
        decreases n - i,
    {
        out.push(v[i] as i64);
        i = i + 1;
        assert(out@ =~= v@.subrange(0, i as int).map_values(|x: u64| x as i64));
    }
    assert(v@.subrange(0, n as int) =~= v@);
    out
}

/// Map unsigned cells to signed ones, two's complement, 8-bit.
fn cast_i8s(v: Vec<u8>) -> (r: Vec<i8>)
    ensures
        r@ == v@.map_values(|x: u8| x as i8),
{
    let mut out: Vec<i8> = Vec::new();
    let n = v.len();
    let mut i: usize = 0;
    while i < n
        invariant
            i <= n,
            n == v@.len(),
            out@ == v@.subrange(0, i as int).map_values(|x: u8| x as i8),
        decreases n - i,
    {
        out.push(v[i] as i8);
        i = i + 1;
        assert(out@ =~= v@.subrange(0, i as int).map_values(|x: u8| x as i8));
    }
    assert(v@.subrange(0, n as int) =~= v@);
    out
}

/// Widen four-byte decimal cells back to their backing value.
fn cast_dec32s(v: Vec<u32>) -> (r: Vec<i128>)
    ensures
        r@ == v@.map_values(|x: u32| (x as i32) as i128),
{
    let mut out: Vec<i128> = Vec::new();
    let n = v.len();
    let mut i: usize = 0;
    while i < n
        invariant
            i <= n,
            n == v@.len(),
            out@ == v@.subrange(0, i as int).map_values(|x: u32| (x as i32) as i128),
        decreases n - i,
    {
        out.push((#[verifier::truncate] (v[i] as i32)) as i128);
        i = i + 1;
        assert(out@ =~= v@.subrange(0, i as int).map_values(|x: u32| (x as i32) as i128));
    }
    assert(v@.subrange(0, n as int) =~= v@);
    out
}

/// Widen eight-byte decimal cells back to their backing value.
fn cast_dec64s(v: Vec<u64>) -> (r: Vec<i128>)
    ensures
        r@ == v@.map_values(|x: u64| (x as i64) as i128),
{
    let mut out: Vec<i128> = Vec::new();
    let n = v.len();
    let mut i: usize = 0;
    while i < n
        invariant
            i <= n,
            n == v@.len(),
            out@ == v@.subrange(0, i as int).map_values(|x: u64| (x as i64) as i128),
        decreases n - i,
    {
        out.push((#[verifier::truncate] (v[i] as i64)) as i128);
        i = i + 1;
        assert(out@ =~= v@.subrange(0, i as int).map_values(|x: u64| (x as i64) as i128));
    }
    assert(v@.subrange(0, n as int) =~= v@);
    out
}

/// Reinterpret sixteen-byte decimal cells as their backing value.
fn cast_dec128s(v: Vec<u128>) -> (r: Vec<i128>)
    ensures
        r@ == v@.map_values(|x: u128| x as i128),
{
    let mut out: Vec<i128> = Vec::new();
    let n = v.len();
    let mut i: usize = 0;
    while i < n
        invariant
            i <= n,
            n == v@.len(),
            out@ == v@.subrange(0, i as int).map_values(|x: u128| x as i128),
        decreases n - i,
    {
        out.push(#[verifier::truncate] (v[i] as i128));
        i = i + 1;
        assert(out@ =~= v@.subrange(0, i as int).map_values(|x: u128| x as i128));
    }
    assert(v@.subrange(0, n as int) =~= v@);
    out
}

/// Widen one-byte index cells.
fn cast_lc8s(v: Vec<u8>) -> (r: Vec<u64>)
    ensures
        r@ == v@.map_values(|x: u8| x as u64),
{
    let mut out: Vec<u64> = Vec::new();
    let n = v.len();
    let mut i: usize = 0;
    while i < n
        invariant
            i <= n,
            n == v@.len(),
            out@ == v@.subrange(0, i as int).map_values(|x: u8| x as u64),
        decreases n - i,
    {
        out.push(v[i] as u64);
        i = i + 1;
        assert(out@ =~= v@.subrange(0, i as int).map_values(|x: u8| x as u64));
    }
    assert(v@.subrange(0, n as int) =~= v@);
    out
}

/// Widen two-byte index cells.
fn cast_lc16s(v: Vec<u16>) -> (r: Vec<u64>)
    ensures
        r@ == v@.map_values(|x: u16| x as u64),
{
    let mut out: Vec<u64> = Vec::new();
    let n = v.len();
    let mut i: usize = 0;
    while i < n
        invariant
            i <= n,
            n == v@.len(),
            out@ == v@.subrange(0, i as int).map_values(|x: u16| x as u64),
        decreases n - i,
    {
        out.push(v[i] as u64);
        i = i + 1;
        assert(out@ =~= v@.subrange(0, i as int).map_values(|x: u16| x as u64));
    }
    assert(v@.subrange(0, n as int) =~= v@);
    out
}

/// Widen four-byte index cells.
fn cast_lc32s(v: Vec<u32>) -> (r: Vec<u64>)
    ensures
        r@ == v@.map_values(|x: u32| x as u64),
{
    let mut out: Vec<u64> = Vec::new();
    let n = v.len();
    let mut i: usize = 0;
    while i < n
        invariant
            i <= n,
            n == v@.len(),
            out@ == v@.subrange(0, i as int).map_values(|x: u32| x as u64),
        decreases n - i,
    {
        out.push(v[i] as u64);
        i = i + 1;
        assert(out@ =~= v@.subrange(0, i as int).map_values(|x: u32| x as u64));
    }
    assert(v@.subrange(0, n as int) =~= v@);
    out
}

proof fn lemma_map_snoc_pair8(s: Seq<(Vec<u8>, i8)>, i: int)
    requires
        0 <= i < s.len(),
    ensures
        s.subrange(0, i + 1).map_values(|e: (Vec<u8>, i8)| (e.0@, e.1 as int)) == s.subrange(
            0,
            i,
        ).map_values(|e: (Vec<u8>, i8)| (e.0@, e.1 as int)) + seq![(s[i].0@, s[i].1 as int)],
{
    assert(s.subrange(0, i + 1) =~= s.subrange(0, i).push(s[i]));
    assert(s.subrange(0, i).push(s[i]).map_values(|e: (Vec<u8>, i8)| (e.0@, e.1 as int))
        =~= s.subrange(0, i).map_values(|e: (Vec<u8>, i8)| (e.0@, e.1 as int)) + seq![
        (s[i].0@, s[i].1 as int),
    ]);
}

proof fn lemma_map_snoc_pair16(s: Seq<(Vec<u8>, i16)>, i: int)
    requires
        0 <= i < s.len(),
    ensures
        s.subrange(0, i + 1).map_values(|e: (Vec<u8>, i16)| (e.0@, e.1 as int)) == s.subrange(
            0,
            i,
        ).map_values(|e: (Vec<u8>, i16)| (e.0@, e.1 as int)) + seq![(s[i].0@, s[i].1 as int)],
{
    assert(s.subrange(0, i + 1) =~= s.subrange(0, i).push(s[i]));
    assert(s.subrange(0, i).push(s[i]).map_values(|e: (Vec<u8>, i16)| (e.0@, e.1 as int))
        =~= s.subrange(0, i).map_values(|e: (Vec<u8>, i16)| (e.0@, e.1 as int)) + seq![
        (s[i].0@, s[i].1 as int),
    ]);
}

proof fn lemma_map_snoc_pair64(s: Seq<(Vec<u8>, i64)>, i: int)
    requires
        0 <= i < s.len(),
    ensures
        s.subrange(0, i + 1).map_values(|e: (Vec<u8>, i64)| (e.0@, e.1 as int)) == s.subrange(
            0,
            i,
        ).map_values(|e: (Vec<u8>, i64)| (e.0@, e.1 as int)) + seq![(s[i].0@, s[i].1 as int)],
{
    assert(s.subrange(0, i + 1) =~= s.subrange(0, i).push(s[i]));
    assert(s.subrange(0, i).push(s[i]).map_values(|e: (Vec<u8>, i64)| (e.0@, e.1 as int))
        =~= s.subrange(0, i).map_values(|e: (Vec<u8>, i64)| (e.0@, e.1 as int)) + seq![
        (s[i].0@, s[i].1 as int),
    ]);
}

proof fn lemma_map_push_pair8(s: Seq<(Vec<u8>, i8)>, e: (Vec<u8>, i8))
    ensures
        s.push(e).map_values(|x: (Vec<u8>, i8)| (x.0@, x.1 as int)) == s.map_values(
            |x: (Vec<u8>, i8)| (x.0@, x.1 as int),
        ) + seq![(e.0@, e.1 as int)],
{
    assert(s.push(e).map_values(|x: (Vec<u8>, i8)| (x.0@, x.1 as int)) =~= s.map_values(
        |x: (Vec<u8>, i8)| (x.0@, x.1 as int),
    ) + seq![(e.0@, e.1 as int)]);
}

proof fn lemma_map_push_pair16(s: Seq<(Vec<u8>, i16)>, e: (Vec<u8>, i16))
    ensures
        s.push(e).map_values(|x: (Vec<u8>, i16)| (x.0@, x.1 as int)) == s.map_values(
            |x: (Vec<u8>, i16)| (x.0@, x.1 as int),
        ) + seq![(e.0@, e.1 as int)],
{
    assert(s.push(e).map_values(|x: (Vec<u8>, i16)| (x.0@, x.1 as int)) =~= s.map_values(
        |x: (Vec<u8>, i16)| (x.0@, x.1 as int),
    ) + seq![(e.0@, e.1 as int)]);
}

proof fn lemma_map_push_pair64(s: Seq<(Vec<u8>, i64)>, e: (Vec<u8>, i64))
    ensures
        s.push(e).map_values(|x: (Vec<u8>, i64)| (x.0@, x.1 as int)) == s.map_values(
            |x: (Vec<u8>, i64)| (x.0@, x.1 as int),
        ) + seq![(e.0@, e.1 as int)],
{
    assert(s.push(e).map_values(|x: (Vec<u8>, i64)| (x.0@, x.1 as int)) =~= s.map_values(
        |x: (Vec<u8>, i64)| (x.0@, x.1 as int),
    ) + seq![(e.0@, e.1 as int)]);
}

/// Copy an eight-bit enum's label map.
fn clone_entries8(es: &Vec<(Vec<u8>, i8)>) -> (r: Vec<(Vec<u8>, i8)>)
    ensures
        r@.map_values(|e: (Vec<u8>, i8)| (e.0@, e.1 as int)) == es@.map_values(
            |e: (Vec<u8>, i8)| (e.0@, e.1 as int),
        ),
{
    let mut out: Vec<(Vec<u8>, i8)> = Vec::new();
    let n = es.len();
    let mut i: usize = 0;
    while i < n
        invariant
            i <= n,
            n == es@.len(),
            out@.map_values(|e: (Vec<u8>, i8)| (e.0@, e.1 as int)) == es@.subrange(
                0,
                i as int,
            ).map_values(|e: (Vec<u8>, i8)| (e.0@, e.1 as int)),
        decreases n - i,
    {
        let lbl = crate::protocol_query::clone_bytes(&es[i].0);
        let pair = (lbl, es[i].1);
        proof {
            lemma_map_push_pair8(out@, pair);
            lemma_map_snoc_pair8(es@, i as int);
            assert((pair.0@, pair.1 as int) == (es@[i as int].0@, es@[i as int].1 as int));
        }
        out.push(pair);
        i = i + 1;
    }
    assert(es@.subrange(0, n as int) =~= es@);
    out
}

/// Copy a sixteen-bit enum's label map.
fn clone_entries16(es: &Vec<(Vec<u8>, i16)>) -> (r: Vec<(Vec<u8>, i16)>)
    ensures
        r@.map_values(|e: (Vec<u8>, i16)| (e.0@, e.1 as int)) == es@.map_values(
            |e: (Vec<u8>, i16)| (e.0@, e.1 as int),
        ),
{
    let mut out: Vec<(Vec<u8>, i16)> = Vec::new();
    let n = es.len();
    let mut i: usize = 0;
    while i < n
        invariant
            i <= n,
            n == es@.len(),
            out@.map_values(|e: (Vec<u8>, i16)| (e.0@, e.1 as int)) == es@.subrange(
                0,
                i as int,
            ).map_values(|e: (Vec<u8>, i16)| (e.0@, e.1 as int)),
        decreases n - i,
    {
        let lbl = crate::protocol_query::clone_bytes(&es[i].0);
        let pair = (lbl, es[i].1);
        proof {
            lemma_map_push_pair16(out@, pair);
            lemma_map_snoc_pair16(es@, i as int);
            assert((pair.0@, pair.1 as int) == (es@[i as int].0@, es@[i as int].1 as int));
        }
        out.push(pair);
        i = i + 1;
    }
    assert(es@.subrange(0, n as int) =~= es@);
    out
}

/// The element types of a tuple's columns.
fn data_list_types(l: &DataList) -> (r: TypeList)
    ensures
        type_list_view(r) == data_list_typ(data_list_view(*l)),
    decreases l,
{
    match l {
        DataList::Last(d) => TypeList::Last(Box::new(d.data_type())),
        DataList::Cons(d, rest) => TypeList::Cons(
            Box::new(d.data_type()),
            Box::new(data_list_types(rest)),
        ),
    }
}

/// Append a tuple's element columns, back to back.
fn encode_data_list(enc: &mut Encoder, l: &DataList)
    ensures
        final (enc)@ == old(enc)@ + spec_data_list_enc(data_list_view(*l)),
    decreases l,
{
    match l {
        DataList::Last(d) => {
            d.encode(enc);
        },
        DataList::Cons(d, rest) => {
            d.encode(enc);
            encode_data_list(enc, rest);
            assert(enc@ =~= old(enc)@ + spec_data_list_enc(data_list_view(*l)));
        },
    }
}

/// Decode a tuple's element columns, back to back, each with `n` rows.
fn decode_data_list(buf: &Vec<u8>, pos: usize, l: &TypeList, n: u64) -> (r: Result<
    (DataList, usize),
    Error,
>)
    requires
        pos <= buf@.len(),
    ensures
        ({
            let sr = spec_read_data_list(buf@, pos as int, type_list_view(*l), n as nat);
            match sr {
                ReadOutcome::Val(dl, k) => r matches Ok(p) && data_list_view(p.0) == dl && pos
                    <= p.1 && p.1 == pos + k && p.1 <= buf@.len(),
                ReadOutcome::Short => r matches Err(e) && e is WouldBlock,
                ReadOutcome::Bad(d) => r matches Err(e) && e == Error::Driver(d),
            }
        }),
    decreases l,
{
    match l {
        TypeList::Last(t) => match ColumnData::decode(buf, pos, t, n) {
            Ok((d, np)) => Ok((DataList::Last(Box::new(d)), np)),
            Err(e) => Err(e),
        },
        TypeList::Cons(t, rest) => {
            let (d, p1) = match ColumnData::decode(buf, pos, t, n) {
                Ok(p) => p,
                Err(e) => {
                    return Err(e);
                },
            };
            match decode_data_list(buf, p1, rest, n) {
                Ok((dl, np)) => Ok((DataList::Cons(Box::new(d), Box::new(dl)), np)),
                Err(e) => Err(e),
            }
        },
    }
}

impl ColumnData {
    /// Decode the cells of a column of type `t` with `n` rows starting at
    /// `pos`.
    pub fn decode(buf: &Vec<u8>, pos: usize, t: &ColumnType, n: u64) -> (r: Result<
        (ColumnData, usize),
        Error,
    >)
        requires
            pos <= buf@.len(),
        ensures
            ({
                let sr = spec_read_data(buf@, pos as int, t@, n as nat);
                match sr {
                    ReadOutcome::Val(d, k) => r matches Ok(p) && p.0@ == d && pos <= p.1 && p.1
                        == pos + k && p.1 <= buf@.len(),
                    ReadOutcome::Short => r matches Err(e) && e is WouldBlock,
                    ReadOutcome::Bad(d) => r matches Err(e) && e == Error::Driver(d),
                }
            }),
        decreases t,
    {
        match t {
            ColumnType::UInt8 => match read_bytes(buf, pos, n) {
                Ok((v, np)) => Ok((ColumnData::UInt8(v), np)),
                Err(e) => Err(e),
            },
            ColumnType::UInt16 => match read_u16s(buf, pos, n) {
                Ok((v, np)) => Ok((ColumnData::UInt16(v), np)),
                Err(e) => Err(e),
            },
            ColumnType::UInt32 => match read_u32s(buf, pos, n) {
                Ok((v, np)) => Ok((ColumnData::UInt32(v), np)),
                Err(e) => Err(e),
            },
            ColumnType::UInt64 => match read_u64s(buf, pos, n) {
                Ok((v, np)) => Ok((ColumnData::UInt64(v), np)),
                Err(e) => Err(e),
            },
            ColumnType::Int8 => match read_bytes(buf, pos, n) {
                Ok((v, np)) => Ok((ColumnData::Int8(cast_i8s(v)), np)),
                Err(e) => Err(e),
            },
            ColumnType::Int16 => match read_u16s(buf, pos, n) {
                Ok((v, np)) => Ok((ColumnData::Int16(cast_i16s(v)), np)),
                Err(e) => Err(e),
            },
            ColumnType::Int32 => match read_u32s(buf, pos, n) {
                Ok((v, np)) => Ok((ColumnData::Int32(cast_i32s(v)), np)),
                Err(e) => Err(e),
            },
            ColumnType::Int64 => match read_u64s(buf, pos, n) {
                Ok((v, np)) => Ok((ColumnData::Int64(cast_i64s(v)), np)),
                Err(e) => Err(e),
            },
            ColumnType::Float32 => match read_u32s(buf, pos, n) {
                Ok((v, np)) => Ok((ColumnData::Float32(v), np)),
                Err(e) => Err(e),
            },
            ColumnType::Float64 => match read_u64s(buf, pos, n) {
                Ok((v, np)) => Ok((ColumnData::Float64(v), np)),
                Err(e) => Err(e),
            },
            ColumnType::Str => match read_strs(buf, pos, n) {
                Ok((v, np)) => Ok((ColumnData::Str(v), np)),
                Err(e) => Err(e),
            },
            ColumnType::FixedStr(w) => match read_fixed_strs(buf, pos, n, *w) {
                Ok((v, np)) => Ok((ColumnData::FixedStr(*w, v), np)),
                Err(e) => Err(e),
            },
            ColumnType::Date => match read_u16s(buf, pos, n) {
                Ok((v, np)) => Ok((ColumnData::Date(v), np)),
                Err(e) => Err(e),
            },
            ColumnType::DateTime(tz) => match read_u32s(buf, pos, n) {
                Ok((v, np)) => {
                    let tzc = match tz {
                        Option::Some(z) => Option::Some(crate::protocol_query::clone_bytes(z)),
                        Option::None => Option::None,
                    };
                    Ok((ColumnData::DateTime(tzc, v), np))
                },
                Err(e) => Err(e),
            },
            ColumnType::DateTime64(p, tz) => match read_u64s(buf, pos, n) {
                Ok((v, np)) => {
                    let tzc = match tz {
                        Option::Some(z) => Option::Some(crate::protocol_query::clone_bytes(z)),
                        Option::None => Option::None,
                    };
                    Ok((ColumnData::DateTime64(*p, tzc, cast_i64s(v)), np))
                },
                Err(e) => Err(e),
            },
            ColumnType::Decimal(p, sc) => {
                if *p <= 9 {
                    match read_u32s(buf, pos, n) {
                        Ok((v, np)) => Ok((ColumnData::Decimal(*p, *sc, cast_dec32s(v)), np)),
                        Err(e) => Err(e),
                    }
                } else if *p <= 18 {
                    match read_u64s(buf, pos, n) {
                        Ok((v, np)) => Ok((ColumnData::Decimal(*p, *sc, cast_dec64s(v)), np)),
                        Err(e) => Err(e),
                    }
                } else {
                    match read_u128s(buf, pos, n) {
                        Ok((v, np)) => Ok((ColumnData::Decimal(*p, *sc, cast_dec128s(v)), np)),
                        Err(e) => Err(e),
                    }
                }
            },
            ColumnType::Nullable(inner) => {
                let (flags, p1) = match read_bytes(buf, pos, n) {
                    Ok(p) => p,
                    Err(e) => {
                        return Err(e);
                    },
                };
                match ColumnData::decode(buf, p1, inner, n) {
                    Ok((d, np)) => Ok((ColumnData::Nullable(flags, Box::new(d)), np)),
                    Err(e) => Err(e),
                }
            },
            ColumnType::Array(inner) => {
                let (offsets, p1) = match read_u64s(buf, pos, n) {
                    Ok(p) => p,
                    Err(e) => {
                        return Err(e);
                    },
                };
                proof {
                    assert(spec_read_u64s(buf@, pos as int, n as nat)
                        == ReadOutcome::<Seq<u64>>::Val(offsets@, p1 - pos));
                }
                let olen = offsets.len();
                let mut bad: bool = false;
                let mut k: usize = 1;
                while k < olen
                    invariant
                        1 <= k,
                        k <= olen || olen == 0,
                        olen == offsets@.len(),
                        !bad ==> (forall|j: int|
                            0 < j < k ==> #[trigger] offsets@[j - 1] <= offsets@[j]),
                        bad ==> !spec_offsets_ok(offsets@),
                    decreases olen - k,
                {
                    if !bad && offsets[k - 1] > offsets[k] {
                        proof {
                            assert(offsets@[k as int - 1] > offsets@[k as int]);
                            assert(!spec_offsets_ok(offsets@));
                        }
                        bad = true;
                    } else {
                        proof {
                            if !bad {
                                assert(offsets@[k as int - 1] <= offsets@[k as int]);
                                assert(forall|j: int|
                                    0 < j < k + 1 ==> #[trigger] offsets@[j - 1] <= offsets@[j]);
                            }
                        }
                    }
                    k = k + 1;
                }
                if bad {
                    return Err(Error::Driver(crate::errors::DriverError::BadFrame));
                }
                proof {
                    assert forall|i2: int, j2: int|
                        0 <= i2 <= j2 < offsets@.len() implies #[trigger] offsets@[i2]
                        <= #[trigger] offsets@[j2] by {
                        lemma_offsets_adjacent(offsets@, i2, j2);
                    }
                    assert(spec_offsets_ok(offsets@));
                }
                let cnt: u64 = if n == 0 {
                    0
                } else {
                    offsets[(n - 1) as usize]
                };
                proof {
                    if n > 0 {
                        assert(cnt == offsets@[n as int - 1]);
                    }
                }
                match ColumnData::decode(buf, p1, inner, cnt) {
                    Ok((d, np)) => Ok((ColumnData::Array(offsets, Box::new(d)), np)),
                    Err(e) => Err(e),
                }
            },
            ColumnType::Enum8(es) => match read_bytes(buf, pos, n) {
                Ok((v, np)) => Ok((ColumnData::Enum8(clone_entries8(es), cast_i8s(v)), np)),
                Err(e) => Err(e),
            },
            ColumnType::Enum16(es) => match read_u16s(buf, pos, n) {
                Ok((v, np)) => Ok((ColumnData::Enum16(clone_entries16(es), cast_i16s(v)), np)),
                Err(e) => Err(e),
            },
            ColumnType::Tuple(elems) => match decode_data_list(buf, pos, elems, n) {
                Ok((dl, np)) => Ok((ColumnData::Tuple(Box::new(dl)), np)),
                Err(e) => Err(e),
            },
            ColumnType::LowCardinality(inner) => {
                let (version, p1) = match crate::binary::read_u64(buf, pos) {
                    Ok(p) => p,
                    Err(e) => {
                        return Err(e);
                    },
                };
                if version != 1 {
                    return Err(Error::Driver(crate::errors::DriverError::BadFrame));
                }
                let (dict_rows, p2) = match crate::binary::read_u64(buf, p1) {
                    Ok(p) => p,
                    Err(e) => {
                        return Err(e);
                    },
                };
                let (dict, p3) = match ColumnData::decode(buf, p2, inner, dict_rows) {
                    Ok(p) => p,
                    Err(e) => {
                        return Err(e);
                    },
                };
                let (nkeys, p4) = match crate::binary::read_u64(buf, p3) {
                    Ok(p) => p,
                    Err(e) => {
                        return Err(e);
                    },
                };
                if nkeys != n {
                    return Err(Error::Driver(crate::errors::DriverError::BadFrame));
                }
                let (keys, np) = if dict_rows <= 0xff {
                    match read_bytes(buf, p4, n) {
                        Ok((v, np)) => (cast_lc8s(v), np),
                        Err(e) => {
                            return Err(e);
                        },
                    }
                } else if dict_rows <= 0xffff {
                    match read_u16s(buf, p4, n) {
                        Ok((v, np)) => (cast_lc16s(v), np),
                        Err(e) => {
                            return Err(e);
                        },
                    }
                } else if dict_rows <= 0xffffffff {
                    match read_u32s(buf, p4, n) {
                        Ok((v, np)) => (cast_lc32s(v), np),
                        Err(e) => {
                            return Err(e);
                        },
                    }
                } else {
                    match read_u64s(buf, p4, n) {
                        Ok((v, np)) => (v, np),
                        Err(e) => {
                            return Err(e);
                        },
                    }
                };
                let klen = keys.len();
                let mut ki: usize = 0;
                let mut bad_key: bool = false;
                while ki < klen
                    invariant
                        ki <= klen,
                        klen == keys@.len(),
                        !bad_key ==> (forall|j: int|
                            0 <= j < ki ==> #[trigger] keys@[j] < dict_rows),
                        bad_key ==> !(forall|j: int|
                            0 <= j < keys@.len() ==> #[trigger] keys@[j] < dict_rows),
                    decreases klen - ki,
                {
                    if keys[ki] >= dict_rows {
                        bad_key = true;
                    }
                    ki = ki + 1;
                }
                if bad_key {
                    return Err(Error::Driver(crate::errors::DriverError::BadFrame));
                }
                Ok((ColumnData::LowCardinality(Box::new(dict), keys), np))
            },
        }
    }
}

// ---------------------------------------------------------------------------
// Row counts of decoded data
// ---------------------------------------------------------------------------
proof fn lemma_read_u16s_len(s: Seq<u8>, pos: int, n: nat)
    ensures
        spec_read_u16s(s, pos, n) matches ReadOutcome::Val(v, k) ==> v.len() == n,
    decreases n,
{
    if n > 0 {
        match spec_read_u16(s, pos) {
            ReadOutcome::Val(x, k0) => {
                lemma_read_u16s_len(s, pos + k0, (n - 1) as nat);
            },
            _ => {},
        }
    }
}

proof fn lemma_read_u32s_len(s: Seq<u8>, pos: int, n: nat)
    ensures
        spec_read_u32s(s, pos, n) matches ReadOutcome::Val(v, k) ==> v.len() == n,
    decreases n,
{
    if n > 0 {
        match spec_read_u32(s, pos) {
            ReadOutcome::Val(x, k0) => {
                lemma_read_u32s_len(s, pos + k0, (n - 1) as nat);
            },
            _ => {},
        }
    }
}

proof fn lemma_read_u64s_len(s: Seq<u8>, pos: int, n: nat)
    ensures
        spec_read_u64s(s, pos, n) matches ReadOutcome::Val(v, k) ==> v.len() == n,
    decreases n,
{
    if n > 0 {
        match spec_read_u64(s, pos) {
            ReadOutcome::Val(x, k0) => {
                lemma_read_u64s_len(s, pos + k0, (n - 1) as nat);
            },
            _ => {},
        }
    }
}

proof fn lemma_read_u128s_len(s: Seq<u8>, pos: int, n: nat)
    ensures
        spec_read_u128s(s, pos, n) matches ReadOutcome::Val(v, k) ==> v.len() == n,
    decreases n,
{
    if n > 0 {
        match spec_read_u128(s, pos) {
            ReadOutcome::Val(x, k0) => {
                lemma_read_u128s_len(s, pos + k0, (n - 1) as nat);
            },
            _ => {},
        }
    }
}

proof fn lemma_read_strs_len(s: Seq<u8>, pos: int, n: nat)
    ensures
        spec_read_strs(s, pos, n) matches ReadOutcome::Val(v, k) ==> v.len() == n,
    decreases n,
{
    if n > 0 {
        match spec_read_str(s, pos) {
            ReadOutcome::Val(x, k0) => {
                lemma_read_strs_len(s, pos + k0, (n - 1) as nat);
            },
            _ => {},
        }
    }
}

proof fn lemma_read_fixed_strs_len(s: Seq<u8>, pos: int, n: nat, w: nat)
    ensures
        spec_read_fixed_strs(s, pos, n, w) matches ReadOutcome::Val(v, k) ==> v.len() == n,
    decreases n,
{
    if n > 0 && 0 <= pos && pos + w <= s.len() {
        lemma_read_fixed_strs_len(s, pos + w, (n - 1) as nat, w);
    }
}

proof fn lemma_read_data_list_rows(s: Seq<u8>, pos: int, l: TypeListM, n: nat)
    ensures
        spec_read_data_list(s, pos, l, n) matches ReadOutcome::Val(dl, k) ==> (match dl {
            DataListM::Last(d) => (*d).rows() == n,
            DataListM::Cons(d, _) => (*d).rows() == n,
        }),
    decreases l,
{
    match l {
        TypeListM::Last(t) => {
            lemma_read_data_rows(s, pos, *t, n);
        },
        TypeListM::Cons(t, rest) => {
            lemma_read_data_rows(s, pos, *t, n);
        },
    }
}

/// Decoded column data carries exactly the requested number of rows.
pub proof fn lemma_read_data_rows(s: Seq<u8>, pos: int, t: TypeM, n: nat)
    ensures
        spec_read_data(s, pos, t, n) matches ReadOutcome::Val(d, k) ==> d.rows() == n,
    decreases t,
{
    match t {
        TypeM::UInt8 => {},
        TypeM::UInt16 => {
            lemma_read_u16s_len(s, pos, n);
        },
        TypeM::UInt32 => {
            lemma_read_u32s_len(s, pos, n);
        },
        TypeM::UInt64 => {
            lemma_read_u64s_len(s, pos, n);
        },
        TypeM::Int8 => {},
        TypeM::Int16 => {
            lemma_read_u16s_len(s, pos, n);
        },
        TypeM::Int32 => {
            lemma_read_u32s_len(s, pos, n);
        },
        TypeM::Int64 => {
            lemma_read_u64s_len(s, pos, n);
        },
        TypeM::Float32 => {
            lemma_read_u32s_len(s, pos, n);
        },
        TypeM::Float64 => {
            lemma_read_u64s_len(s, pos, n);
        },
        TypeM::Str => {
            lemma_read_strs_len(s, pos, n);
        },
        TypeM::FixedStr(w) => {
            lemma_read_fixed_strs_len(s, pos, n, w);
        },
        TypeM::Date => {
            lemma_read_u16s_len(s, pos, n);
        },
        TypeM::DateTime(tz) => {
            lemma_read_u32s_len(s, pos, n);
        },
        TypeM::DateTime64(p, tz) => {
            lemma_read_u64s_len(s, pos, n);
        },
        TypeM::Decimal(p, sc) => {
            if p <= 9 {
                lemma_read_u32s_len(s, pos, n);
            } else if p <= 18 {
                lemma_read_u64s_len(s, pos, n);
            } else {
                lemma_read_u128s_len(s, pos, n);
            }
        },
        TypeM::Enum8(es) => {},
        TypeM::Enum16(es) => {
            lemma_read_u16s_len(s, pos, n);
        },
        TypeM::Nullable(inner) => {},
        TypeM::Array(inner) => {
            match spec_read_u64s(s, pos, n) {
                ReadOutcome::Val(offsets, k) => {
                    lemma_read_u64s_len(s, pos, n);
                },
                _ => {},
            }
        },
        TypeM::Tuple(elems) => {
            lemma_read_data_list_rows(s, pos, *elems, n);
        },
        TypeM::LowCardinality(inner) => {
            match spec_read_u64(s, pos) {
                ReadOutcome::Val(version, k1) => {
                    match spec_read_u64(s, pos + k1) {
                        ReadOutcome::Val(dict_rows, k2) => {
                            match spec_read_data(s, pos + k1 + k2, *inner, dict_rows as nat) {
                                ReadOutcome::Val(dict, k3) => {
                                    match spec_read_u64(s, pos + k1 + k2 + k3) {
                                        ReadOutcome::Val(nkeys, k4) => {
                                            let kpos = pos + k1 + k2 + k3 + k4;
                                            lemma_read_u16s_len(s, kpos, n);
                                            lemma_read_u32s_len(s, kpos, n);
                                            lemma_read_u64s_len(s, kpos, n);
                                        },
                                        _ => {},
                                    }
                                },
                                _ => {},
                            }
                        },
                        _ => {},
                    }
                },
                _ => {},
            }
        },
    }
}

} // verus!
