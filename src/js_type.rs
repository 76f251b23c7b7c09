//! Host-side type and field descriptors, and their decoding into logical types.
use vstd::prelude::*;

use crate::datatype::{
    field_view, fields_view, lemma_fields_view_index, lemma_fields_view_len, metadata_view, union_view, DataType, Field, FieldModel, IntervalUnit,
    LogicalType, MetadataEntry, TimeUnit, UnionMode,
};
use crate::error::{view_result, ArrowWasmError, TypeDecodeError};

verus! {

/// Width of a host floating-point type.
#[derive(Debug, Clone, Copy, PartialEq, Eq, Structural)]
pub enum Precision {
    Half,
    Single,
    Double,
}

/// Unit of a host date type.
#[derive(Debug, Clone, Copy, PartialEq, Eq, Structural)]
pub enum DateUnit {
    Day,
    Millisecond,
}

/// The tag of a host type descriptor.
#[derive(Debug, Clone, Copy, PartialEq, Eq, Structural)]
pub enum Type {
    NONE,
    Null,
    Int,
    Float,
    Binary,
    Utf8,
    Bool,
    Decimal,
    Date,
    Time,
    Timestamp,
    Interval,
    List,
    Struct,
    Union,
    FixedSizeBinary,
    FixedSizeList,
    Map_,
    Duration,
}

/// A host type descriptor: its tag with the fields that the tag carries.
#[derive(Debug)]
pub enum JSDataType {
    /// The placeholder for a type not yet assigned.
    NONE,
    Null,
    Int { bit_width: u8, is_signed: bool },
    Float { precision: Precision },
    Binary,
    Utf8,
    Bool,
    Decimal { bit_width: usize, precision: u8, scale: i8 },
    Date { unit: DateUnit },
    Time { unit: TimeUnit },
    Timestamp { unit: TimeUnit, timezone: Option<String> },
    Interval { unit: IntervalUnit },
    List { children: Vec<JSField> },
    Struct { children: Vec<JSField> },
    Union { mode: UnionMode, type_ids: Vec<i32>, children: Vec<JSField> },
    FixedSizeBinary { byte_width: i32 },
    FixedSizeList { list_size: i32, children: Vec<JSField> },
    Map_ { keys_sorted: bool, children: Vec<JSField> },
    Duration { unit: TimeUnit },
}

/// A host field descriptor.
#[derive(Debug)]
pub struct JSField {
    pub name: String,
    pub data_type: JSDataType,
    pub nullable: bool,
    pub metadata: Vec<MetadataEntry>,
}

impl JSDataType {
    /// The tag of this descriptor.
    pub fn type_id(&self) -> (r: Type)
        ensures
            r == type_tag(*self),
    {
        match self {
            JSDataType::NONE => Type::NONE,
            JSDataType::Null => Type::Null,
            JSDataType::Int { .. } => Type::Int,
            JSDataType::Float { .. } => Type::Float,
            JSDataType::Binary => Type::Binary,
            JSDataType::Utf8 => Type::Utf8,
            JSDataType::Bool => Type::Bool,
            JSDataType::Decimal { .. } => Type::Decimal,
            JSDataType::Date { .. } => Type::Date,
            JSDataType::Time { .. } => Type::Time,
            JSDataType::Timestamp { .. } => Type::Timestamp,
            JSDataType::Interval { .. } => Type::Interval,
            JSDataType::List { .. } => Type::List,
            JSDataType::Struct { .. } => Type::Struct,
            JSDataType::Union { .. } => Type::Union,
            JSDataType::FixedSizeBinary { .. } => Type::FixedSizeBinary,
            JSDataType::FixedSizeList { .. } => Type::FixedSizeList,
            JSDataType::Map_ { .. } => Type::Map_,
            JSDataType::Duration { .. } => Type::Duration,
        }
    }
}

pub open spec fn type_tag(t: JSDataType) -> Type {
    match t {
        JSDataType::NONE => Type::NONE,
        JSDataType::Null => Type::Null,
        JSDataType::Int { .. } => Type::Int,
        JSDataType::Float { .. } => Type::Float,
        JSDataType::Binary => Type::Binary,
        JSDataType::Utf8 => Type::Utf8,
        JSDataType::Bool => Type::Bool,
        JSDataType::Decimal { .. } => Type::Decimal,
        JSDataType::Date { .. } => Type::Date,
        JSDataType::Time { .. } => Type::Time,
        JSDataType::Timestamp { .. } => Type::Timestamp,
        JSDataType::Interval { .. } => Type::Interval,
        JSDataType::List { .. } => Type::List,
        JSDataType::Struct { .. } => Type::Struct,
        JSDataType::Union { .. } => Type::Union,
        JSDataType::FixedSizeBinary { .. } => Type::FixedSizeBinary,
        JSDataType::FixedSizeList { .. } => Type::FixedSizeList,
        JSDataType::Map_ { .. } => Type::Map_,
        JSDataType::Duration { .. } => Type::Duration,
    }
}

// ---------------------------------------------------------------------------
// The decoding, as mathematics.

pub open spec fn type_error<T>(e: TypeDecodeError) -> Result<T, ArrowWasmError> {
    Err(ArrowWasmError::TypeDecode(e))
}

/// The integer type of a bit width and signedness.
pub open spec fn int_type(bit_width: u8, is_signed: bool) -> Result<LogicalType, ArrowWasmError> {
    if is_signed {
        if bit_width == 8 {
            Ok(LogicalType::Int8)
        } else if bit_width == 16 {
            Ok(LogicalType::Int16)
        } else if bit_width == 32 {
            Ok(LogicalType::Int32)
        } else if bit_width == 64 {
            Ok(LogicalType::Int64)
        } else {
            type_error(TypeDecodeError::IntWidth { bit_width, is_signed })
        }
    } else {
        if bit_width == 8 {
            Ok(LogicalType::UInt8)
        } else if bit_width == 16 {
            Ok(LogicalType::UInt16)
        } else if bit_width == 32 {
            Ok(LogicalType::UInt32)
        } else if bit_width == 64 {
            Ok(LogicalType::UInt64)
        } else {
            type_error(TypeDecodeError::IntWidth { bit_width, is_signed })
        }
    }
}

pub open spec fn float_type(p: Precision) -> LogicalType {
    match p {
        Precision::Half => LogicalType::Float16,
        Precision::Single => LogicalType::Float32,
        Precision::Double => LogicalType::Float64,
    }
}

pub open spec fn decimal_type(bit_width: usize, precision: u8, scale: i8) -> Result<
    LogicalType,
    ArrowWasmError,
> {
    if bit_width == 128 {
        Ok(LogicalType::Decimal128(precision, scale))
    } else if bit_width == 256 {
        Ok(LogicalType::Decimal256(precision, scale))
    } else {
        type_error(TypeDecodeError::DecimalWidth { bit_width })
    }
}

pub open spec fn date_type(u: DateUnit) -> LogicalType {
    match u {
        DateUnit::Day => LogicalType::Date32,
        DateUnit::Millisecond => LogicalType::Date64,
    }
}

/// Seconds and milliseconds fit 32 bits; finer units take 64.
pub open spec fn time_type(u: TimeUnit) -> LogicalType {
    match u {
        TimeUnit::Second => LogicalType::Time32(u),
        TimeUnit::Millisecond => LogicalType::Time32(u),
        TimeUnit::Microsecond => LogicalType::Time64(u),
        TimeUnit::Nanosecond => LogicalType::Time64(u),
    }
}

pub open spec fn option_string_view(s: Option<String>) -> Option<Seq<char>> {
    match s {
        Some(s) => Some(s@),
        None => None,
    }
}

/// Union type ids, checked in order: each in `0..=127` and not seen before.
pub open spec fn union_type_ids(ids: Seq<i32>) -> Result<Seq<i8>, ArrowWasmError>
    decreases ids.len(),
{
    if ids.len() == 0 {
        Ok(Seq::empty())
    } else {
        match union_type_ids(ids.drop_last()) {
            Err(e) => Err(e),
            Ok(prev) => {
                let v = ids.last();
                if 0 <= v <= 127 {
                    if prev.contains(v as i8) {
                        type_error(TypeDecodeError::DuplicateUnionTypeId { type_id: v as i8 })
                    } else {
                        Ok(prev.push(v as i8))
                    }
                } else {
                    type_error(TypeDecodeError::UnionTypeId { type_id: v })
                }
            },
        }
    }
}

/// Type ids paired positionally with fields.
pub open spec fn zip_union(ids: Seq<i8>, fs: Seq<FieldModel>) -> Seq<(i8, FieldModel)> {
    Seq::new(fs.len(), |i: int| (ids[i], fs[i]))
}

pub open spec fn decode_type(t: JSDataType) -> Result<LogicalType, ArrowWasmError>
    decreases t,
{
    match t {
        JSDataType::NONE => type_error(TypeDecodeError::PlaceholderType),
        JSDataType::Null => Ok(LogicalType::Null),
        JSDataType::Int { bit_width, is_signed } => int_type(bit_width, is_signed),
        JSDataType::Float { precision } => Ok(float_type(precision)),
        JSDataType::Binary => Ok(LogicalType::Binary),
        JSDataType::Utf8 => Ok(LogicalType::Utf8),
        JSDataType::Bool => Ok(LogicalType::Boolean),
        JSDataType::Decimal { bit_width, precision, scale } => decimal_type(
            bit_width,
            precision,
            scale,
        ),
        JSDataType::Date { unit } => Ok(date_type(unit)),
        JSDataType::Time { unit } => Ok(time_type(unit)),
        JSDataType::Timestamp { unit, timezone } => Ok(
            LogicalType::Timestamp(unit, option_string_view(timezone)),
        ),
        JSDataType::Interval { unit } => Ok(LogicalType::Interval(unit)),
        JSDataType::List { children } => match decode_single_child(children@) {
            Ok(f) => Ok(LogicalType::List(Box::new(f))),
            Err(e) => Err(e),
        },
        JSDataType::Struct { children } => match decode_fields(children@) {
            Ok(fs) => Ok(LogicalType::Struct(fs)),
            Err(e) => Err(e),
        },
        JSDataType::Union { mode, type_ids, children } => match decode_fields(children@) {
            Err(e) => Err(e),
            Ok(fs) => match union_type_ids(type_ids@) {
                Err(e) => Err(e),
                Ok(ids) => if ids.len() == fs.len() {
                    Ok(LogicalType::Union(zip_union(ids, fs), mode))
                } else {
                    type_error(
                        TypeDecodeError::UnionArity {
                            type_ids: ids.len() as usize,
                            children: fs.len() as usize,
                        },
                    )
                },
            },
        },
        JSDataType::FixedSizeBinary { byte_width } => Ok(LogicalType::FixedSizeBinary(byte_width)),
        JSDataType::FixedSizeList { list_size, children } => match decode_single_child(children@) {
            Ok(f) => Ok(LogicalType::FixedSizeList(Box::new(f), list_size)),
            Err(e) => Err(e),
        },
        JSDataType::Map_ { keys_sorted, children } => match decode_single_child(children@) {
            Ok(f) => Ok(LogicalType::Map_(Box::new(f), keys_sorted)),
            Err(e) => Err(e),
        },
        JSDataType::Duration { unit } => Ok(LogicalType::Duration(unit)),
    }
}

/// The one child field of a list, fixed-size list or map type.
pub open spec fn decode_single_child(fs: Seq<JSField>) -> Result<FieldModel, ArrowWasmError>
    decreases fs,
{
    if fs.len() == 1 {
        decode_field(fs[0])
    } else {
        type_error(TypeDecodeError::ChildCount { found: fs.len() as usize })
    }
}

/// Fields decoded in order; the first failure is the result.
pub open spec fn decode_fields(fs: Seq<JSField>) -> Result<Seq<FieldModel>, ArrowWasmError>
    decreases fs,
{
    if fs.len() == 0 {
        Ok(Seq::empty())
    } else {
        match decode_fields(fs.subrange(0, fs.len() - 1)) {
            Err(e) => Err(e),
            Ok(prev) => match decode_field(fs[fs.len() - 1]) {
                Err(e) => Err(e),
                Ok(f) => Ok(prev.push(f)),
            },
        }
    }
}

pub open spec fn decode_field(f: JSField) -> Result<FieldModel, ArrowWasmError>
    decreases f,
{
    match decode_type(f.data_type) {
        Err(e) => Err(e),
        Ok(d) => Ok(
            FieldModel {
                name: f.name@,
                data_type: d,
                nullable: f.nullable,
                metadata: metadata_view(f.metadata@),
            },
        ),
    }
}

} // verus!

verus! {

// ---------------------------------------------------------------------------
// The decoding, as code.

fn decode_error<T>(e: TypeDecodeError) -> (r: Result<T, ArrowWasmError>)
    ensures
        r == type_error::<T>(e),
{
    Err(ArrowWasmError::TypeDecode(e))
}

/// A copy of a metadata list, entry by entry.
pub fn copy_metadata(m: &Vec<MetadataEntry>) -> (r: Vec<MetadataEntry>)
    ensures
        r@ == m@,
{
    let mut out: Vec<MetadataEntry> = Vec::new();
    let mut i: usize = 0;
    while i < m.len()
        invariant
            i <= m@.len(),
            out@ == m@.subrange(0, i as int),
        decreases m@.len() - i,
    {
        let e = (m[i].0.clone(), m[i].1.clone());
        out.push(e);
        i += 1;
        assert(out@ =~= m@.subrange(0, i as int));
    }
    assert(out@ =~= m@);
    out
}

fn copy_string_option(s: &Option<String>) -> (r: Option<String>)
    ensures
        option_string_view(r) == option_string_view(*s),
{
    match s {
        Some(s) => Some(s.clone()),
        None => None,
    }
}

/// The integer type of a host `Int` descriptor.
pub fn import_int(bit_width: u8, is_signed: bool) -> (r: Result<DataType, ArrowWasmError>)
    ensures
        view_result(r) == int_type(bit_width, is_signed),
{
    match (is_signed, bit_width) {
        (true, 8) => Ok(DataType::Int8),
        (true, 16) => Ok(DataType::Int16),
        (true, 32) => Ok(DataType::Int32),
        (true, 64) => Ok(DataType::Int64),
        (false, 8) => Ok(DataType::UInt8),
        (false, 16) => Ok(DataType::UInt16),
        (false, 32) => Ok(DataType::UInt32),
        (false, 64) => Ok(DataType::UInt64),
        _ => decode_error(TypeDecodeError::IntWidth { bit_width, is_signed }),
    }
}

/// The floating-point type of a host `Float` descriptor.
pub fn import_float(precision: Precision) -> (r: DataType)
    ensures
        r@ == float_type(precision),
{
    match precision {
        Precision::Half => DataType::Float16,
        Precision::Single => DataType::Float32,
        Precision::Double => DataType::Float64,
    }
}

/// The decimal type of a host `Decimal` descriptor.
pub fn import_decimal(bit_width: usize, precision: u8, scale: i8) -> (r: Result<
    DataType,
    ArrowWasmError,
>)
    ensures
        view_result(r) == decimal_type(bit_width, precision, scale),
{
    match bit_width {
        128 => Ok(DataType::Decimal128(precision, scale)),
        256 => Ok(DataType::Decimal256(precision, scale)),
        _ => decode_error(TypeDecodeError::DecimalWidth { bit_width }),
    }
}

/// The date type of a host `Date` descriptor.
pub fn import_date(unit: DateUnit) -> (r: DataType)
    ensures
        r@ == date_type(unit),
{
    match unit {
        DateUnit::Day => DataType::Date32,
        DateUnit::Millisecond => DataType::Date64,
    }
}

/// The time-of-day type of a host `Time` descriptor.
pub fn import_time(unit: TimeUnit) -> (r: DataType)
    ensures
        r@ == time_type(unit),
{
    match unit {
        TimeUnit::Second => DataType::Time32(TimeUnit::Second),
        TimeUnit::Millisecond => DataType::Time32(TimeUnit::Millisecond),
        TimeUnit::Microsecond => DataType::Time64(TimeUnit::Microsecond),
        TimeUnit::Nanosecond => DataType::Time64(TimeUnit::Nanosecond),
    }
}

/// The timestamp type of a host `Timestamp` descriptor, time zone included.
pub fn import_timestamp(unit: TimeUnit, timezone: &Option<String>) -> (r: DataType)
    ensures
        r@ == LogicalType::Timestamp(unit, option_string_view(*timezone)),
{
    DataType::Timestamp(unit, copy_string_option(timezone))
}

/// The interval type of a host `Interval` descriptor.
pub fn import_interval(unit: IntervalUnit) -> (r: DataType)
    ensures
        r@ == LogicalType::Interval(unit),
{
    DataType::Interval(unit)
}

/// The duration type of a host `Duration` descriptor.
pub fn import_duration(unit: TimeUnit) -> (r: DataType)
    ensures
        r@ == LogicalType::Duration(unit),
{
    DataType::Duration(unit)
}

/// The fixed-size binary type of a host `FixedSizeBinary` descriptor.
pub fn import_fixed_size_binary(byte_width: i32) -> (r: DataType)
    ensures
        r@ == LogicalType::FixedSizeBinary(byte_width),
{
    DataType::FixedSizeBinary(byte_width)
}

proof fn lemma_fields_view_push(fs: Seq<Field>, f: Field)
    ensures
        fields_view(fs.push(f)) == fields_view(fs).push(field_view(f)),
{
    assert(fs.push(f).subrange(0, fs.len() as int) =~= fs);
}

proof fn lemma_decode_fields_prefix_err(fs: Seq<JSField>, i: int)
    requires
        0 <= i <= fs.len(),
        decode_fields(fs.subrange(0, i)) is Err,
    ensures
        decode_fields(fs) == decode_fields(fs.subrange(0, i)),
    decreases fs.len() - i,
{
    if i < fs.len() {
        let next = fs.subrange(0, i + 1);
        assert(next.subrange(0, next.len() - 1) =~= fs.subrange(0, i));
        lemma_decode_fields_prefix_err(fs, i + 1);
    } else {
        assert(fs.subrange(0, i) =~= fs);
    }
}

/// Fields decoded in order; the first failure is returned.
pub fn import_fields(children: &Vec<JSField>) -> (r: Result<Vec<Field>, ArrowWasmError>)
    ensures
        match r {
            Ok(v) => decode_fields(children@) == Ok::<Seq<FieldModel>, ArrowWasmError>(
                fields_view(v@),
            ),
            Err(e) => decode_fields(children@) == Err::<Seq<FieldModel>, ArrowWasmError>(e),
        },
    decreases children, 0int,
{
    let mut out: Vec<Field> = Vec::new();
    let mut i: usize = 0;
    while i < children.len()
        invariant
            i <= children@.len(),
            decode_fields(children@.subrange(0, i as int)) == Ok::<
                Seq<FieldModel>,
                ArrowWasmError,
            >(fields_view(out@)),
        decreases children@.len() - i,
    {
        let ghost prefix = children@.subrange(0, i as int + 1);
        assert(prefix.subrange(0, prefix.len() - 1) =~= children@.subrange(0, i as int));
        assert(prefix[prefix.len() - 1] == children@[i as int]);
        proof {
            assert(decreases_to!(children => children@[i as int]));
        }
        match import_field(&children[i]) {
            Ok(f) => {
                proof {
                    lemma_fields_view_push(out@, f);
                }
                out.push(f);
            },
            Err(e) => {
                proof {
                    lemma_decode_fields_prefix_err(children@, i as int + 1);
                }
                return Err(e);
            },
        }
        i += 1;
    }
    assert(children@.subrange(0, i as int) =~= children@);
    Ok(out)
}

/// The one child field of a list-like descriptor.
fn import_single_child(children: &Vec<JSField>) -> (r: Result<Field, ArrowWasmError>)
    ensures
        view_result(r) == decode_single_child(children@),
    decreases children, 0int,
{
    if children.len() == 1 {
        proof {
            assert(decreases_to!(children => children@[0]));
        }
        import_field(&children[0])
    } else {
        decode_error(TypeDecodeError::ChildCount { found: children.len() })
    }
}

/// The list type of a host `List` descriptor.
pub fn import_list(children: &Vec<JSField>) -> (r: Result<DataType, ArrowWasmError>)
    ensures
        view_result(r) == decode_type(JSDataType::List { children: *children }),
    decreases children, 1int,
{
    match import_single_child(children) {
        Ok(f) => Ok(DataType::List(Box::new(f))),
        Err(e) => Err(e),
    }
}

/// The fixed-size list type of a host `FixedSizeList` descriptor.
pub fn import_fixed_size_list(list_size: i32, children: &Vec<JSField>) -> (r: Result<
    DataType,
    ArrowWasmError,
>)
    ensures
        view_result(r) == decode_type(JSDataType::FixedSizeList { list_size, children: *children }),
    decreases children, 1int,
{
    match import_single_child(children) {
        Ok(f) => Ok(DataType::FixedSizeList(Box::new(f), list_size)),
        Err(e) => Err(e),
    }
}

/// The map type of a host `Map` descriptor.
pub fn import_map(keys_sorted: bool, children: &Vec<JSField>) -> (r: Result<
    DataType,
    ArrowWasmError,
>)
    ensures
        view_result(r) == decode_type(JSDataType::Map_ { keys_sorted, children: *children }),
    decreases children, 1int,
{
    match import_single_child(children) {
        Ok(f) => Ok(DataType::Map_(Box::new(f), keys_sorted)),
        Err(e) => Err(e),
    }
}

/// The struct type of a host `Struct` descriptor.
pub fn import_struct(children: &Vec<JSField>) -> (r: Result<DataType, ArrowWasmError>)
    ensures
        view_result(r) == decode_type(JSDataType::Struct { children: *children }),
    decreases children, 1int,
{
    match import_fields(children) {
        Ok(fs) => Ok(DataType::Struct(fs)),
        Err(e) => Err(e),
    }
}

proof fn lemma_union_type_ids_prefix_err(ids: Seq<i32>, i: int)
    requires
        0 <= i <= ids.len(),
        union_type_ids(ids.subrange(0, i)) is Err,
    ensures
        union_type_ids(ids) == union_type_ids(ids.subrange(0, i)),
    decreases ids.len() - i,
{
    if i < ids.len() {
        let next = ids.subrange(0, i + 1);
        assert(next.drop_last() =~= ids.subrange(0, i));
        lemma_union_type_ids_prefix_err(ids, i + 1);
    } else {
        assert(ids.subrange(0, i) =~= ids);
    }
}

/// Union type ids checked in order: each in `0..=127` and not given before.
pub fn import_type_ids(ids: &Vec<i32>) -> (r: Result<Vec<i8>, ArrowWasmError>)
    ensures
        match r {
            Ok(v) => union_type_ids(ids@) == Ok::<Seq<i8>, ArrowWasmError>(v@),
            Err(e) => union_type_ids(ids@) == Err::<Seq<i8>, ArrowWasmError>(e),
        },
{
    let mut out: Vec<i8> = Vec::new();
    let mut i: usize = 0;
    while i < ids.len()
        invariant
            i <= ids@.len(),
            union_type_ids(ids@.subrange(0, i as int)) == Ok::<Seq<i8>, ArrowWasmError>(out@),
        decreases ids@.len() - i,
    {
        let ghost prefix = ids@.subrange(0, i as int + 1);
        assert(prefix.drop_last() =~= ids@.subrange(0, i as int));
        let v = ids[i];
        if v < 0 || v > 127 {
            proof {
                lemma_union_type_ids_prefix_err(ids@, i as int + 1);
            }
            return decode_error(TypeDecodeError::UnionTypeId { type_id: v });
        }
        let t = v as i8;
        let mut j: usize = 0;
        while j < out.len()
            invariant
                i < ids@.len(),
                v == ids@[i as int],
                0 <= v <= 127,
                t == v as i8,
                prefix == ids@.subrange(0, i as int + 1),
                prefix.drop_last() == ids@.subrange(0, i as int),
                union_type_ids(ids@.subrange(0, i as int)) == Ok::<Seq<i8>, ArrowWasmError>(out@),
                j <= out@.len(),
                forall|k: int| 0 <= k < j ==> out@[k] != t,
            decreases out@.len() - j,
        {
            if out[j] == t {
                assert(out@.contains(t));
                proof {
                    lemma_union_type_ids_prefix_err(ids@, i as int + 1);
                }
                return decode_error(TypeDecodeError::DuplicateUnionTypeId { type_id: t });
            }
            j += 1;
        }
        assert(!out@.contains(t));
        out.push(t);
        i += 1;
    }
    assert(ids@.subrange(0, i as int) =~= ids@);
    Ok(out)
}

/// The union type of a host `Union` descriptor: type ids paired with the child
/// fields in order.
pub fn import_union(mode: UnionMode, type_ids: &Vec<i32>, children: &Vec<JSField>) -> (r: Result<
    DataType,
    ArrowWasmError,
>)
    ensures
        view_result(r) == decode_type(
            JSDataType::Union { mode, type_ids: *type_ids, children: *children },
        ),
    decreases children, 1int,
{
    let fields = match import_fields(children) {
        Ok(fs) => fs,
        Err(e) => return Err(e),
    };
    let ids = match import_type_ids(type_ids) {
        Ok(ids) => ids,
        Err(e) => return Err(e),
    };
    proof {
        lemma_fields_view_len(fields@);
    }
    if ids.len() != fields.len() {
        return decode_error(
            TypeDecodeError::UnionArity { type_ids: ids.len(), children: fields.len() },
        );
    }
    let ghost fs0 = fields@;
    let ghost ids0 = ids@;
    let n = fields.len();
    let mut rest = fields;
    // Taking the fields from the back twice puts them in order again.
    let mut reversed: Vec<Field> = Vec::new();
    while rest.len() > 0
        invariant
            n == fs0.len(),
            rest@ == fs0.subrange(0, rest@.len() as int),
            reversed@.len() + rest@.len() == n,
            forall|m: int| 0 <= m < reversed@.len() ==> #[trigger] reversed@[m] == fs0[n - 1 - m],
        decreases rest@.len(),
    {
        let f = rest.pop().unwrap();
        reversed.push(f);
        assert(rest@ =~= fs0.subrange(0, rest@.len() as int));
    }
    let mut ordered: Vec<(i8, Field)> = Vec::new();
    while reversed.len() > 0
        invariant
            n == fs0.len(),
            n == ids0.len(),
            ids@ == ids0,
            reversed@.len() + ordered@.len() == n,
            forall|m: int| 0 <= m < reversed@.len() ==> #[trigger] reversed@[m] == fs0[n - 1 - m],
            forall|m: int| 0 <= m < ordered@.len() ==> #[trigger] ordered@[m] == (ids0[m], fs0[m]),
        decreases reversed@.len(),
    {
        let i = ordered.len();
        let f = reversed.pop().unwrap();
        ordered.push((ids[i], f));
    }
    proof {
        lemma_union_view_zip(ordered@, ids0, fs0);
    }
    Ok(DataType::Union(ordered, mode))
}

proof fn lemma_union_view_zip(us: Seq<(i8, Field)>, ids: Seq<i8>, fs: Seq<Field>)
    requires
        us.len() == fs.len(),
        ids.len() == fs.len(),
        forall|m: int| 0 <= m < us.len() ==> #[trigger] us[m] == (ids[m], fs[m]),
    ensures
        union_view(us) == zip_union(ids, fields_view(fs)),
    decreases us.len(),
{
    lemma_fields_view_len(fs);
    if us.len() > 0 {
        let n = us.len() - 1;
        lemma_union_view_zip(us.subrange(0, n), ids.subrange(0, n), fs.subrange(0, n));
        lemma_fields_view_index(fs);
        lemma_fields_view_index(fs.subrange(0, n));
        lemma_fields_view_len(fs.subrange(0, n));
        assert(union_view(us) =~= zip_union(ids, fields_view(fs)));
    } else {
        assert(union_view(us) =~= zip_union(ids, fields_view(fs)));
    }
}

/// The logical type that a host type descriptor stands for.
pub fn import_data_type(js_type: &JSDataType) -> (r: Result<DataType, ArrowWasmError>)
    ensures
        view_result(r) == decode_type(*js_type),
    decreases js_type, 2int,
{
    match js_type {
        JSDataType::NONE => decode_error(TypeDecodeError::PlaceholderType),
        JSDataType::Null => Ok(DataType::Null),
        JSDataType::Int { bit_width, is_signed } => import_int(*bit_width, *is_signed),
        JSDataType::Float { precision } => Ok(import_float(*precision)),
        JSDataType::Binary => Ok(DataType::Binary),
        JSDataType::Utf8 => Ok(DataType::Utf8),
        JSDataType::Bool => Ok(DataType::Boolean),
        JSDataType::Decimal { bit_width, precision, scale } => import_decimal(
            *bit_width,
            *precision,
            *scale,
        ),
        JSDataType::Date { unit } => Ok(import_date(*unit)),
        JSDataType::Time { unit } => Ok(import_time(*unit)),
        JSDataType::Timestamp { unit, timezone } => Ok(import_timestamp(*unit, timezone)),
        JSDataType::Interval { unit } => Ok(import_interval(*unit)),
        JSDataType::List { children } => import_list(children),
        JSDataType::Struct { children } => import_struct(children),
        JSDataType::Union { mode, type_ids, children } => import_union(*mode, type_ids, children),
        JSDataType::FixedSizeBinary { byte_width } => Ok(import_fixed_size_binary(*byte_width)),
        JSDataType::FixedSizeList { list_size, children } => import_fixed_size_list(
            *list_size,
            children,
        ),
        JSDataType::Map_ { keys_sorted, children } => import_map(*keys_sorted, children),
        JSDataType::Duration { unit } => Ok(import_duration(*unit)),
    }
}

/// The field that a host field descriptor stands for.
pub fn import_field(js_field: &JSField) -> (r: Result<Field, ArrowWasmError>)
    ensures
        view_result(r) == decode_field(*js_field),
    decreases js_field, 3int,
{
    let data_type = match import_data_type(&js_field.data_type) {
        Ok(d) => d,
        Err(e) => return Err(e),
    };
    let metadata = copy_metadata(&js_field.metadata);
    Ok(Field { name: js_field.name.clone(), data_type, nullable: js_field.nullable, metadata })
}

} // verus!
