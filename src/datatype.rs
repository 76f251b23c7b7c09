//! Logical types and fields of the columnar model.
use vstd::prelude::*;

verus! {

/// Unit of a time, timestamp or duration value.
#[derive(Debug, Clone, Copy, PartialEq, Eq, Structural)]
pub enum TimeUnit {
    Second,
    Millisecond,
    Microsecond,
    Nanosecond,
}

/// Unit of a calendar interval value.
#[derive(Debug, Clone, Copy, PartialEq, Eq, Structural)]
pub enum IntervalUnit {
    YearMonth,
    DayTime,
    MonthDayNano,
}

/// Layout of a union: every child as long as the union, or one offset per slot.
#[derive(Debug, Clone, Copy, PartialEq, Eq, Structural)]
pub enum UnionMode {
    Sparse,
    Dense,
}

/// A key/value pair of field or schema metadata.
pub type MetadataEntry = (String, String);

/// The logical type of a column.
#[derive(Debug)]
pub enum DataType {
    Null,
    Boolean,
    Int8,
    Int16,
    Int32,
    Int64,
    UInt8,
    UInt16,
    UInt32,
    UInt64,
    Float16,
    Float32,
    Float64,
    Timestamp(TimeUnit, Option<String>),
    Date32,
    Date64,
    Time32(TimeUnit),
    Time64(TimeUnit),
    Duration(TimeUnit),
    Interval(IntervalUnit),
    Binary,
    FixedSizeBinary(i32),
    LargeBinary,
    Utf8,
    LargeUtf8,
    List(Box<Field>),
    FixedSizeList(Box<Field>, i32),
    LargeList(Box<Field>),
    Struct(Vec<Field>),
    Union(Vec<(i8, Field)>, UnionMode),
    Decimal128(u8, i8),
    Decimal256(u8, i8),
    Map_(Box<Field>, bool),
    RunEndEncoded(Box<Field>, Box<Field>),
}

/// A named, typed column description.
#[derive(Debug)]
pub struct Field {
    pub name: String,
    pub data_type: DataType,
    pub nullable: bool,
    pub metadata: Vec<MetadataEntry>,
}

/// Mathematical model of [`DataType`].
pub enum LogicalType {
    Null,
    Boolean,
    Int8,
    Int16,
    Int32,
    Int64,
    UInt8,
    UInt16,
    UInt32,
    UInt64,
    Float16,
    Float32,
    Float64,
    Timestamp(TimeUnit, Option<Seq<char>>),
    Date32,
    Date64,
    Time32(TimeUnit),
    Time64(TimeUnit),
    Duration(TimeUnit),
    Interval(IntervalUnit),
    Binary,
    FixedSizeBinary(i32),
    LargeBinary,
    Utf8,
    LargeUtf8,
    List(Box<FieldModel>),
    FixedSizeList(Box<FieldModel>, i32),
    LargeList(Box<FieldModel>),
    Struct(Seq<FieldModel>),
    Union(Seq<(i8, FieldModel)>, UnionMode),
    Decimal128(u8, i8),
    Decimal256(u8, i8),
    Map_(Box<FieldModel>, bool),
    RunEndEncoded(Box<FieldModel>, Box<FieldModel>),
}

/// Mathematical model of [`Field`].
pub struct FieldModel {
    pub name: Seq<char>,
    pub data_type: LogicalType,
    pub nullable: bool,
    pub metadata: Seq<(Seq<char>, Seq<char>)>,
}

/// The model of a metadata list.
pub open spec fn metadata_view(m: Seq<MetadataEntry>) -> Seq<(Seq<char>, Seq<char>)> {
    m.map_values(|e: MetadataEntry| (e.0@, e.1@))
}

/// The models of a sequence of fields, in order.
pub open spec fn fields_view(fs: Seq<Field>) -> Seq<FieldModel>
    decreases fs,
{
    if fs.len() == 0 {
        Seq::empty()
    } else {
        fields_view(fs.subrange(0, fs.len() - 1)).push(field_view(fs[fs.len() - 1]))
    }
}

/// The models of a sequence of union members, in order.
pub open spec fn union_view(fs: Seq<(i8, Field)>) -> Seq<(i8, FieldModel)>
    decreases fs,
{
    if fs.len() == 0 {
        Seq::empty()
    } else {
        union_view(fs.subrange(0, fs.len() - 1)).push(
            (fs[fs.len() - 1].0, field_view(fs[fs.len() - 1].1)),
        )
    }
}

pub open spec fn field_view(f: Field) -> FieldModel
    decreases f,
{
    FieldModel {
        name: f.name@,
        data_type: data_type_view(f.data_type),
        nullable: f.nullable,
        metadata: metadata_view(f.metadata@),
    }
}

pub open spec fn data_type_view(d: DataType) -> LogicalType
    decreases d,
{
    match d {
        DataType::Null => LogicalType::Null,
        DataType::Boolean => LogicalType::Boolean,
        DataType::Int8 => LogicalType::Int8,
        DataType::Int16 => LogicalType::Int16,
        DataType::Int32 => LogicalType::Int32,
        DataType::Int64 => LogicalType::Int64,
        DataType::UInt8 => LogicalType::UInt8,
        DataType::UInt16 => LogicalType::UInt16,
        DataType::UInt32 => LogicalType::UInt32,
        DataType::UInt64 => LogicalType::UInt64,
        DataType::Float16 => LogicalType::Float16,
        DataType::Float32 => LogicalType::Float32,
        DataType::Float64 => LogicalType::Float64,
        DataType::Timestamp(u, tz) => LogicalType::Timestamp(
            u,
            match tz {
                Some(s) => Some(s@),
                None => None,
            },
        ),
        DataType::Date32 => LogicalType::Date32,
        DataType::Date64 => LogicalType::Date64,
        DataType::Time32(u) => LogicalType::Time32(u),
        DataType::Time64(u) => LogicalType::Time64(u),
        DataType::Duration(u) => LogicalType::Duration(u),
        DataType::Interval(u) => LogicalType::Interval(u),
        DataType::Binary => LogicalType::Binary,
        DataType::FixedSizeBinary(w) => LogicalType::FixedSizeBinary(w),
        DataType::LargeBinary => LogicalType::LargeBinary,
        DataType::Utf8 => LogicalType::Utf8,
        DataType::LargeUtf8 => LogicalType::LargeUtf8,
        DataType::List(f) => LogicalType::List(Box::new(field_view(*f))),
        DataType::FixedSizeList(f, n) => LogicalType::FixedSizeList(Box::new(field_view(*f)), n),
        DataType::LargeList(f) => LogicalType::LargeList(Box::new(field_view(*f))),
        DataType::Struct(fs) => LogicalType::Struct(fields_view(fs@)),
        DataType::Union(fs, m) => LogicalType::Union(union_view(fs@), m),
        DataType::Decimal128(p, s) => LogicalType::Decimal128(p, s),
        DataType::Decimal256(p, s) => LogicalType::Decimal256(p, s),
        DataType::Map_(f, sorted) => LogicalType::Map_(Box::new(field_view(*f)), sorted),
        DataType::RunEndEncoded(r, v) => LogicalType::RunEndEncoded(
            Box::new(field_view(*r)),
            Box::new(field_view(*v)),
        ),
    }
}

impl View for DataType {
    type V = LogicalType;

    open spec fn view(&self) -> LogicalType {
        data_type_view(*self)
    }
}

impl View for Field {
    type V = FieldModel;

    open spec fn view(&self) -> FieldModel {
        field_view(*self)
    }
}

pub proof fn lemma_union_view_len(fs: Seq<(i8, Field)>)
    ensures
        union_view(fs).len() == fs.len(),
    decreases fs.len(),
{
    if fs.len() > 0 {
        lemma_union_view_len(fs.subrange(0, fs.len() - 1));
    }
}

pub proof fn lemma_fields_view_len(fs: Seq<Field>)
    ensures
        fields_view(fs).len() == fs.len(),
    decreases fs.len(),
{
    if fs.len() > 0 {
        lemma_fields_view_len(fs.subrange(0, fs.len() - 1));
    }
}

pub proof fn lemma_fields_view_index(fs: Seq<Field>)
    ensures
        forall|i: int| 0 <= i < fs.len() ==> #[trigger] fields_view(fs)[i] == field_view(fs[i]),
    decreases fs.len(),
{
    lemma_fields_view_len(fs);
    if fs.len() > 0 {
        let p = fs.subrange(0, fs.len() - 1);
        lemma_fields_view_index(p);
        lemma_fields_view_len(p);
        assert forall|i: int| 0 <= i < fs.len() implies #[trigger] fields_view(fs)[i] == field_view(
            fs[i],
        ) by {
            if i < fs.len() - 1 {
                assert(p[i] == fs[i]);
            }
        }
    }
}

pub proof fn lemma_union_view_index(fs: Seq<(i8, Field)>)
    ensures
        forall|i: int|
            0 <= i < fs.len() ==> #[trigger] union_view(fs)[i] == (fs[i].0, field_view(fs[i].1)),
    decreases fs.len(),
{
    lemma_union_view_len(fs);
    if fs.len() > 0 {
        let p = fs.subrange(0, fs.len() - 1);
        lemma_union_view_index(p);
        lemma_union_view_len(p);
        assert forall|i: int| 0 <= i < fs.len() implies #[trigger] union_view(fs)[i] == (
            fs[i].0,
            field_view(fs[i].1),
        ) by {
            if i < fs.len() - 1 {
                assert(p[i] == fs[i]);
            }
        }
    }
}

/// Whether two metadata lists hold the same entries in the same order.
pub fn metadata_eq(a: &Vec<MetadataEntry>, b: &Vec<MetadataEntry>) -> (r: bool)
    ensures
        r == (metadata_view(a@) == metadata_view(b@)),
{
    if a.len() != b.len() {
        assert(metadata_view(a@).len() != metadata_view(b@).len());
        return false;
    }
    let mut i: usize = 0;
    while i < a.len()
        invariant
            i <= a@.len(),
            a@.len() == b@.len(),
            forall|j: int| 0 <= j < i ==> #[trigger] metadata_view(a@)[j] == metadata_view(b@)[j],
        decreases a@.len() - i,
    {
        if a[i].0 != b[i].0 || a[i].1 != b[i].1 {
            assert(metadata_view(a@)[i as int] != metadata_view(b@)[i as int]);
            return false;
        }
        i += 1;
    }
    assert(metadata_view(a@) =~= metadata_view(b@));
    true
}

/// Whether two sequences of fields are equal, field by field.
pub fn fields_eq(a: &Vec<Field>, b: &Vec<Field>) -> (r: bool)
    ensures
        r == (fields_view(a@) == fields_view(b@)),
    decreases a, 0int,
{
    proof {
        lemma_fields_view_len(a@);
        lemma_fields_view_len(b@);
        lemma_fields_view_index(a@);
        lemma_fields_view_index(b@);
    }
    if a.len() != b.len() {
        return false;
    }
    let mut i: usize = 0;
    while i < a.len()
        invariant
            i <= a@.len(),
            a@.len() == b@.len(),
            fields_view(a@).len() == a@.len(),
            fields_view(b@).len() == b@.len(),
            forall|k: int| 0 <= k < a@.len() ==> #[trigger] fields_view(a@)[k] == field_view(a@[k]),
            forall|k: int| 0 <= k < b@.len() ==> #[trigger] fields_view(b@)[k] == field_view(b@[k]),
            forall|j: int| 0 <= j < i ==> #[trigger] fields_view(a@)[j] == fields_view(b@)[j],
        decreases a@.len() - i,
    {
        proof {
            assert(decreases_to!(a => a@[i as int]));
        }
        if !field_eq(&a[i], &b[i]) {
            assert(fields_view(a@)[i as int] != fields_view(b@)[i as int]);
            return false;
        }
        i += 1;
    }
    assert(fields_view(a@) =~= fields_view(b@));
    true
}

/// Whether two union member lists are equal, member by member.
fn union_members_eq(a: &Vec<(i8, Field)>, b: &Vec<(i8, Field)>) -> (r: bool)
    ensures
        r == (union_view(a@) == union_view(b@)),
    decreases a, 0int,
{
    proof {
        lemma_union_view_len(a@);
        lemma_union_view_len(b@);
        lemma_union_view_index(a@);
        lemma_union_view_index(b@);
    }
    if a.len() != b.len() {
        return false;
    }
    let mut i: usize = 0;
    while i < a.len()
        invariant
            i <= a@.len(),
            a@.len() == b@.len(),
            union_view(a@).len() == a@.len(),
            union_view(b@).len() == b@.len(),
            forall|k: int|
                0 <= k < a@.len() ==> #[trigger] union_view(a@)[k] == (a@[k].0, field_view(a@[k].1)),
            forall|k: int|
                0 <= k < b@.len() ==> #[trigger] union_view(b@)[k] == (b@[k].0, field_view(b@[k].1)),
            forall|j: int| 0 <= j < i ==> #[trigger] union_view(a@)[j] == union_view(b@)[j],
        decreases a@.len() - i,
    {
        proof {
            assert(decreases_to!(a => a@[i as int]));
            assert(decreases_to!(a@[i as int] => a@[i as int].1));
        }
        if a[i].0 != b[i].0 || !field_eq(&a[i].1, &b[i].1) {
            assert(union_view(a@)[i as int] != union_view(b@)[i as int]);
            return false;
        }
        i += 1;
    }
    assert(union_view(a@) =~= union_view(b@));
    true
}

fn string_option_eq(a: &Option<String>, b: &Option<String>) -> (r: bool)
    ensures
        r == (match (*a, *b) {
            (Some(x), Some(y)) => x@ == y@,
            (None, None) => true,
            _ => false,
        }),
{
    match (a, b) {
        (Some(x), Some(y)) => *x == *y,
        (None, None) => true,
        _ => false,
    }
}

/// Whether two fields are equal: name, type, nullability and metadata.
pub fn field_eq(a: &Field, b: &Field) -> (r: bool)
    ensures
        r == (a@ == b@),
    decreases a, 2int,
{
    a.name == b.name && a.nullable == b.nullable && data_type_eq(&a.data_type, &b.data_type)
        && metadata_eq(&a.metadata, &b.metadata)
}

/// Whether two logical types are equal, nested fields included.
pub fn data_type_eq(a: &DataType, b: &DataType) -> (r: bool)
    ensures
        r == (a@ == b@),
    decreases a, 1int,
{
    match (a, b) {
        (DataType::Null, DataType::Null) => true,
        (DataType::Boolean, DataType::Boolean) => true,
        (DataType::Int8, DataType::Int8) => true,
        (DataType::Int16, DataType::Int16) => true,
        (DataType::Int32, DataType::Int32) => true,
        (DataType::Int64, DataType::Int64) => true,
        (DataType::UInt8, DataType::UInt8) => true,
        (DataType::UInt16, DataType::UInt16) => true,
        (DataType::UInt32, DataType::UInt32) => true,
        (DataType::UInt64, DataType::UInt64) => true,
        (DataType::Float16, DataType::Float16) => true,
        (DataType::Float32, DataType::Float32) => true,
        (DataType::Float64, DataType::Float64) => true,
        (DataType::Timestamp(u, tz), DataType::Timestamp(v, tz2)) => *u == *v && string_option_eq(
            tz,
            tz2,
        ),
        (DataType::Date32, DataType::Date32) => true,
        (DataType::Date64, DataType::Date64) => true,
        (DataType::Time32(u), DataType::Time32(v)) => *u == *v,
        (DataType::Time64(u), DataType::Time64(v)) => *u == *v,
        (DataType::Duration(u), DataType::Duration(v)) => *u == *v,
        (DataType::Interval(u), DataType::Interval(v)) => *u == *v,
        (DataType::Binary, DataType::Binary) => true,
        (DataType::FixedSizeBinary(x), DataType::FixedSizeBinary(y)) => *x == *y,
        (DataType::LargeBinary, DataType::LargeBinary) => true,
        (DataType::Utf8, DataType::Utf8) => true,
        (DataType::LargeUtf8, DataType::LargeUtf8) => true,
        (DataType::List(f), DataType::List(g)) => field_eq(f, g),
        (DataType::FixedSizeList(f, n), DataType::FixedSizeList(g, m)) => *n == *m && field_eq(
            f,
            g,
        ),
        (DataType::LargeList(f), DataType::LargeList(g)) => field_eq(f, g),
        (DataType::Struct(fs), DataType::Struct(gs)) => fields_eq(fs, gs),
        (DataType::Union(fs, m), DataType::Union(gs, n)) => *m == *n && union_members_eq(fs, gs),
        (DataType::Decimal128(p, s), DataType::Decimal128(q, t)) => *p == *q && *s == *t,
        (DataType::Decimal256(p, s), DataType::Decimal256(q, t)) => *p == *q && *s == *t,
        (DataType::Map_(f, s), DataType::Map_(g, t)) => *s == *t && field_eq(f, g),
        (DataType::RunEndEncoded(r, v), DataType::RunEndEncoded(q, w)) => field_eq(r, q)
            && field_eq(v, w),
        _ => false,
    }
}

fn clone_metadata(m: &Vec<MetadataEntry>) -> (r: Vec<MetadataEntry>)
    ensures
        r@ == m@,
{
    let mut out: Vec<MetadataEntry> = Vec::new();
    let mut i: usize = 0;
    while i < m.len()
        invariant
            i <= m@.len(),
            out@ == m@.subrange(0, i as int),
        decreases m@.len() - i,
    {
        out.push((m[i].0.clone(), m[i].1.clone()));
        i += 1;
        assert(out@ =~= m@.subrange(0, i as int));
    }
    assert(out@ =~= m@);
    out
}

fn clone_fields(fs: &Vec<Field>) -> (r: Vec<Field>)
    ensures
        fields_view(r@) == fields_view(fs@),
    decreases fs, 0int,
{
    proof {
        lemma_fields_view_len(fs@);
        lemma_fields_view_index(fs@);
    }
    let mut out: Vec<Field> = Vec::new();
    let mut i: usize = 0;
    while i < fs.len()
        invariant
            i <= fs@.len(),
            out@.len() == i,
            forall|k: int| 0 <= k < i ==> #[trigger] out@[k]@ == fs@[k]@,
        decreases fs@.len() - i,
    {
        proof {
            assert(decreases_to!(fs => fs@[i as int]));
        }
        out.push(fs[i].deep_clone());
        i += 1;
    }
    proof {
        lemma_fields_view_len(out@);
        lemma_fields_view_index(out@);
        assert forall|k: int| 0 <= k < fs@.len() implies fields_view(out@)[k] == fields_view(
            fs@,
        )[k] by {
            assert(out@[k]@ == fs@[k]@);
        }
    }
    assert(fields_view(out@) =~= fields_view(fs@));
    out
}

fn clone_union_members(fs: &Vec<(i8, Field)>) -> (r: Vec<(i8, Field)>)
    ensures
        union_view(r@) == union_view(fs@),
    decreases fs, 0int,
{
    proof {
        lemma_union_view_len(fs@);
        lemma_union_view_index(fs@);
    }
    let mut out: Vec<(i8, Field)> = Vec::new();
    let mut i: usize = 0;
    while i < fs.len()
        invariant
            i <= fs@.len(),
            out@.len() == i,
            forall|k: int|
                0 <= k < i ==> #[trigger] out@[k].0 == fs@[k].0 && out@[k].1@ == fs@[k].1@,
        decreases fs@.len() - i,
    {
        proof {
            assert(decreases_to!(fs => fs@[i as int]));
            assert(decreases_to!(fs@[i as int] => fs@[i as int].1));
        }
        out.push((fs[i].0, fs[i].1.deep_clone()));
        i += 1;
    }
    proof {
        lemma_union_view_len(out@);
        lemma_union_view_index(out@);
    }
    assert(union_view(out@) =~= union_view(fs@));
    out
}

impl Field {
    /// A copy of the field, nested fields included.
    pub fn deep_clone(&self) -> (r: Field)
        ensures
            r@ == self@,
        decreases self, 2int,
    {
        Field {
            name: self.name.clone(),
            data_type: self.data_type.deep_clone(),
            nullable: self.nullable,
            metadata: clone_metadata(&self.metadata),
        }
    }
}

impl DataType {
    /// A copy of the type, nested fields included.
    pub fn deep_clone(&self) -> (r: DataType)
        ensures
            r@ == self@,
        decreases self, 1int,
    {
        match self {
            DataType::Null => DataType::Null,
            DataType::Boolean => DataType::Boolean,
            DataType::Int8 => DataType::Int8,
            DataType::Int16 => DataType::Int16,
            DataType::Int32 => DataType::Int32,
            DataType::Int64 => DataType::Int64,
            DataType::UInt8 => DataType::UInt8,
            DataType::UInt16 => DataType::UInt16,
            DataType::UInt32 => DataType::UInt32,
            DataType::UInt64 => DataType::UInt64,
            DataType::Float16 => DataType::Float16,
            DataType::Float32 => DataType::Float32,
            DataType::Float64 => DataType::Float64,
            DataType::Timestamp(u, tz) => DataType::Timestamp(
                *u,
                match tz {
                    Some(s) => Some(s.clone()),
                    None => None,
                },
            ),
            DataType::Date32 => DataType::Date32,
            DataType::Date64 => DataType::Date64,
            DataType::Time32(u) => DataType::Time32(*u),
            DataType::Time64(u) => DataType::Time64(*u),
            DataType::Duration(u) => DataType::Duration(*u),
            DataType::Interval(u) => DataType::Interval(*u),
            DataType::Binary => DataType::Binary,
            DataType::FixedSizeBinary(w) => DataType::FixedSizeBinary(*w),
            DataType::LargeBinary => DataType::LargeBinary,
            DataType::Utf8 => DataType::Utf8,
            DataType::LargeUtf8 => DataType::LargeUtf8,
            DataType::List(f) => DataType::List(Box::new(f.deep_clone())),
            DataType::FixedSizeList(f, n) => DataType::FixedSizeList(Box::new(f.deep_clone()), *n),
            DataType::LargeList(f) => DataType::LargeList(Box::new(f.deep_clone())),
            DataType::Struct(fs) => DataType::Struct(clone_fields(fs)),
            DataType::Union(fs, m) => DataType::Union(clone_union_members(fs), *m),
            DataType::Decimal128(p, s) => DataType::Decimal128(*p, *s),
            DataType::Decimal256(p, s) => DataType::Decimal256(*p, *s),
            DataType::Map_(f, sorted) => DataType::Map_(Box::new(f.deep_clone()), *sorted),
            DataType::RunEndEncoded(r, v) => DataType::RunEndEncoded(
                Box::new(r.deep_clone()),
                Box::new(v.deep_clone()),
            ),
        }
    }
}

} // verus!
