//! Native buffers and the little-endian decoding of host bytes into them.
use vstd::prelude::*;

use crate::datatype::{DataType, IntervalUnit, LogicalType};

verus! {

/// An owned native buffer. Fixed-width elements are held as unsigned words of
/// their width; offsets are signed.
#[derive(Debug)]
pub enum Buffer {
    Bytes(Vec<u8>),
    Words16(Vec<u16>),
    Words32(Vec<u32>),
    Words64(Vec<u64>),
    Words128(Vec<u128>),
    /// 256-bit words as (low 128 bits, high 128 bits).
    Words256(Vec<(u128, u128)>),
    /// (months, days, nanoseconds).
    MonthDayNano(Vec<(i32, i32, i64)>),
    Offsets32(Vec<i32>),
    Offsets64(Vec<i64>),
}

/// Mathematical model of [`Buffer`].
pub enum BufferModel {
    Bytes(Seq<u8>),
    Words16(Seq<u16>),
    Words32(Seq<u32>),
    Words64(Seq<u64>),
    Words128(Seq<u128>),
    Words256(Seq<(u128, u128)>),
    MonthDayNano(Seq<(i32, i32, i64)>),
    Offsets32(Seq<i32>),
    Offsets64(Seq<i64>),
}

impl View for Buffer {
    type V = BufferModel;

    open spec fn view(&self) -> BufferModel {
        match self {
            Buffer::Bytes(v) => BufferModel::Bytes(v@),
            Buffer::Words16(v) => BufferModel::Words16(v@),
            Buffer::Words32(v) => BufferModel::Words32(v@),
            Buffer::Words64(v) => BufferModel::Words64(v@),
            Buffer::Words128(v) => BufferModel::Words128(v@),
            Buffer::Words256(v) => BufferModel::Words256(v@),
            Buffer::MonthDayNano(v) => BufferModel::MonthDayNano(v@),
            Buffer::Offsets32(v) => BufferModel::Offsets32(v@),
            Buffer::Offsets64(v) => BufferModel::Offsets64(v@),
        }
    }
}

impl BufferModel {
    /// Number of elements.
    pub open spec fn len(self) -> nat {
        match self {
            BufferModel::Bytes(v) => v.len(),
            BufferModel::Words16(v) => v.len(),
            BufferModel::Words32(v) => v.len(),
            BufferModel::Words64(v) => v.len(),
            BufferModel::Words128(v) => v.len(),
            BufferModel::Words256(v) => v.len(),
            BufferModel::MonthDayNano(v) => v.len(),
            BufferModel::Offsets32(v) => v.len(),
            BufferModel::Offsets64(v) => v.len(),
        }
    }
}

impl Buffer {
    /// Number of elements.
    pub fn len(&self) -> (r: usize)
        ensures
            r == self@.len(),
    {
        match self {
            Buffer::Bytes(v) => v.len(),
            Buffer::Words16(v) => v.len(),
            Buffer::Words32(v) => v.len(),
            Buffer::Words64(v) => v.len(),
            Buffer::Words128(v) => v.len(),
            Buffer::Words256(v) => v.len(),
            Buffer::MonthDayNano(v) => v.len(),
            Buffer::Offsets32(v) => v.len(),
            Buffer::Offsets64(v) => v.len(),
        }
    }
}

/// How the values buffer of a type is laid out.
#[derive(Debug, Clone, Copy, PartialEq, Eq, Structural)]
pub enum ValueLayout {
    Bytes,
    W16,
    W32,
    W64,
    W128,
    W256,
    MonthDayNano,
}

/// How the offsets buffer of a type is laid out.
#[derive(Debug, Clone, Copy, PartialEq, Eq, Structural)]
pub enum OffsetLayout {
    O32,
    O64,
}

/// The values layout of each type that has a values buffer.
pub open spec fn value_layout(t: LogicalType) -> Option<ValueLayout> {
    match t {
        LogicalType::Boolean | LogicalType::Binary | LogicalType::LargeBinary
        | LogicalType::Utf8 | LogicalType::LargeUtf8 | LogicalType::FixedSizeBinary(_)
        | LogicalType::Int8 | LogicalType::UInt8 => Some(ValueLayout::Bytes),
        LogicalType::Int16 | LogicalType::UInt16 | LogicalType::Float16 => Some(ValueLayout::W16),
        LogicalType::Int32 | LogicalType::UInt32 | LogicalType::Float32 | LogicalType::Date32
        | LogicalType::Time32(_) => Some(ValueLayout::W32),
        LogicalType::Int64 | LogicalType::UInt64 | LogicalType::Float64 | LogicalType::Date64
        | LogicalType::Time64(_) | LogicalType::Timestamp(_, _)
        | LogicalType::Duration(_) => Some(ValueLayout::W64),
        LogicalType::Interval(u) => match u {
            IntervalUnit::YearMonth => Some(ValueLayout::W32),
            IntervalUnit::DayTime => Some(ValueLayout::W64),
            IntervalUnit::MonthDayNano => Some(ValueLayout::MonthDayNano),
        },
        LogicalType::Decimal128(_, _) => Some(ValueLayout::W128),
        LogicalType::Decimal256(_, _) => Some(ValueLayout::W256),
        _ => None,
    }
}

/// The offsets layout of each type that has an offsets buffer.
pub open spec fn offset_layout(t: LogicalType) -> Option<OffsetLayout> {
    match t {
        LogicalType::Binary | LogicalType::Utf8 | LogicalType::List(_)
        | LogicalType::Map_(_, _) => Some(OffsetLayout::O32),
        LogicalType::LargeBinary | LogicalType::LargeUtf8
        | LogicalType::LargeList(_) => Some(OffsetLayout::O64),
        _ => None,
    }
}

/// Bytes per element of a values layout.
pub open spec fn value_width(l: ValueLayout) -> nat {
    match l {
        ValueLayout::Bytes => 1,
        ValueLayout::W16 => 2,
        ValueLayout::W32 => 4,
        ValueLayout::W64 => 8,
        ValueLayout::W128 => 16,
        ValueLayout::W256 => 32,
        ValueLayout::MonthDayNano => 16,
    }
}

/// Bytes per element of an offsets layout.
pub open spec fn offset_width(l: OffsetLayout) -> nat {
    match l {
        OffsetLayout::O32 => 4,
        OffsetLayout::O64 => 8,
    }
}

/// The values layout of a type, if it has a values buffer.
pub fn value_layout_of(t: &DataType) -> (r: Option<ValueLayout>)
    ensures
        r == value_layout(t@),
{
    match t {
        DataType::Boolean | DataType::Binary | DataType::LargeBinary | DataType::Utf8
        | DataType::LargeUtf8 | DataType::FixedSizeBinary(_) | DataType::Int8
        | DataType::UInt8 => Some(ValueLayout::Bytes),
        DataType::Int16 | DataType::UInt16 | DataType::Float16 => Some(ValueLayout::W16),
        DataType::Int32 | DataType::UInt32 | DataType::Float32 | DataType::Date32
        | DataType::Time32(_) => Some(ValueLayout::W32),
        DataType::Int64 | DataType::UInt64 | DataType::Float64 | DataType::Date64
        | DataType::Time64(_) | DataType::Timestamp(_, _)
        | DataType::Duration(_) => Some(ValueLayout::W64),
        DataType::Interval(u) => match u {
            IntervalUnit::YearMonth => Some(ValueLayout::W32),
            IntervalUnit::DayTime => Some(ValueLayout::W64),
            IntervalUnit::MonthDayNano => Some(ValueLayout::MonthDayNano),
        },
        DataType::Decimal128(_, _) => Some(ValueLayout::W128),
        DataType::Decimal256(_, _) => Some(ValueLayout::W256),
        _ => None,
    }
}

/// The offsets layout of a type, if it has an offsets buffer.
pub fn offset_layout_of(t: &DataType) -> (r: Option<OffsetLayout>)
    ensures
        r == offset_layout(t@),
{
    match t {
        DataType::Binary | DataType::Utf8 | DataType::List(_)
        | DataType::Map_(_, _) => Some(OffsetLayout::O32),
        DataType::LargeBinary | DataType::LargeUtf8
        | DataType::LargeList(_) => Some(OffsetLayout::O64),
        _ => None,
    }
}

pub fn value_width_of(l: ValueLayout) -> (r: usize)
    ensures
        r == value_width(l),
{
    match l {
        ValueLayout::Bytes => 1,
        ValueLayout::W16 => 2,
        ValueLayout::W32 => 4,
        ValueLayout::W64 => 8,
        ValueLayout::W128 => 16,
        ValueLayout::W256 => 32,
        ValueLayout::MonthDayNano => 16,
    }
}

pub fn offset_width_of(l: OffsetLayout) -> (r: usize)
    ensures
        r == offset_width(l),
{
    match l {
        OffsetLayout::O32 => 4,
        OffsetLayout::O64 => 8,
    }
}

// ---------------------------------------------------------------------------
// Little-endian decoding.

/// The unsigned number whose little-endian bytes are `b`.
pub open spec fn le_value(b: Seq<u8>) -> nat
    decreases b.len(),
{
    if b.len() == 0 {
        0
    } else {
        b[0] as nat + 256 * le_value(b.drop_first())
    }
}

pub open spec fn pow256(n: nat) -> nat
    decreases n,
{
    if n == 0 {
        1
    } else {
        256 * pow256((n - 1) as nat)
    }
}

/// The `i`-th `w`-byte little-endian word of `b`.
pub open spec fn word(b: Seq<u8>, w: nat, i: int) -> nat {
    le_value(b.subrange(i * w, i * w + w))
}

/// All whole `w`-byte words of `b`, in order.
pub open spec fn words(b: Seq<u8>, w: nat) -> Seq<nat>
    recommends
        w > 0,
{
    Seq::new(b.len() / w, |i: int| word(b, w, i))
}

/// Decoding of a values buffer in the given layout.
pub open spec fn decode_values(l: ValueLayout, b: Seq<u8>) -> BufferModel {
    match l {
        ValueLayout::Bytes => BufferModel::Bytes(b),
        ValueLayout::W16 => BufferModel::Words16(words(b, 2).map_values(|v: nat| v as u16)),
        ValueLayout::W32 => BufferModel::Words32(words(b, 4).map_values(|v: nat| v as u32)),
        ValueLayout::W64 => BufferModel::Words64(words(b, 8).map_values(|v: nat| v as u64)),
        ValueLayout::W128 => BufferModel::Words128(words(b, 16).map_values(|v: nat| v as u128)),
        ValueLayout::W256 => BufferModel::Words256(
            Seq::new(
                b.len() / 32,
                |i: int| (word(b, 16, 2 * i) as u128, word(b, 16, 2 * i + 1) as u128),
            ),
        ),
        ValueLayout::MonthDayNano => BufferModel::MonthDayNano(
            Seq::new(
                b.len() / 16,
                |i: int|
                    (
                        (word(b, 4, 4 * i) as u32) as i32,
                        (word(b, 4, 4 * i + 1) as u32) as i32,
                        (word(b, 8, 2 * i + 1) as u64) as i64,
                    ),
            ),
        ),
    }
}

/// Decoding of an offsets buffer in the given layout.
pub open spec fn decode_offsets(l: OffsetLayout, b: Seq<u8>) -> BufferModel {
    match l {
        OffsetLayout::O32 => BufferModel::Offsets32(
            words(b, 4).map_values(|v: nat| (v as u32) as i32),
        ),
        OffsetLayout::O64 => BufferModel::Offsets64(
            words(b, 8).map_values(|v: nat| (v as u64) as i64),
        ),
    }
}

proof fn lemma_pow256_16()
    ensures
        pow256(16) == 0x1_0000_0000_0000_0000_0000_0000_0000_0000,
        pow256(8) == 0x1_0000_0000_0000_0000,
        pow256(4) == 0x1_0000_0000,
        pow256(2) == 0x1_0000,
{
    reveal_with_fuel(pow256, 17);
}

proof fn lemma_pow256_mono(a: nat, b: nat)
    requires
        a <= b,
    ensures
        pow256(a) <= pow256(b),
    decreases b,
{
    if a < b {
        lemma_pow256_mono(a, (b - 1) as nat);
    }
}

/// The little-endian number of `width` bytes of `b` from `start`.
fn read_le(b: &Vec<u8>, start: usize, width: usize) -> (r: u128)
    requires
        start + width <= b@.len(),
        width <= 16,
    ensures
        r as nat == le_value(b@.subrange(start as int, start + width)),
        (r as nat) < pow256(width as nat),
{
    let n = b.len();
    let end = start + width;
    let mut acc: u128 = 0;
    let mut k: usize = width;
    while k > 0
        invariant
            k <= width,
            end == start + width,
            end <= b@.len(),
            width <= 16,
            acc as nat == le_value(b@.subrange(start + k, end as int)),
            (acc as nat) < pow256((width - k) as nat),
        decreases k,
    {
        let ghost m = (width - k) as nat;
        let ghost tail = b@.subrange(start + k - 1, end as int);
        assert(tail.drop_first() =~= b@.subrange(start + k, end as int));
        proof {
            lemma_pow256_mono(m + 1, 16);
            lemma_pow256_16();
            assert(pow256(m + 1) == 256 * pow256(m));
            assert(acc * 256 + 255 < 256 * pow256(m)) by (nonlinear_arith)
                requires
                    (acc as nat) < pow256(m),
            ;
        }
        acc = acc * 256 + b[start + k - 1] as u128;
        k -= 1;
    }
    acc
}

proof fn lemma_word_bounds(b: Seq<u8>, w: nat, i: int)
    requires
        w > 0,
        0 <= i < b.len() / w,
    ensures
        0 <= i * w,
        i * w + w <= b.len(),
{
    assert(i * w + w <= (b.len() / w) * w) by (nonlinear_arith)
        requires
            0 <= i < b.len() / w,
            w > 0,
    ;
    assert((b.len() / w) * w <= b.len()) by (nonlinear_arith)
        requires
            w > 0,
    ;
    assert(0 <= i * w) by (nonlinear_arith)
        requires
            0 <= i,
            w > 0,
    ;
}

/// The `i`-th little-endian `w`-byte word of `b`, read byte by byte, so that
/// no alignment of `b` is assumed.
fn word_at(b: &Vec<u8>, w: usize, i: usize) -> (r: u128)
    requires
        0 < w <= 16,
        i < b@.len() / (w as nat),
    ensures
        r as nat == word(b@, w as nat, i as int),
        (r as nat) < pow256(w as nat),
{
    let len = b.len();
    proof {
        lemma_word_bounds(b@, w as nat, i as int);
    }
    read_le(b, i * w, w)
}

/// Decodes host bytes into a values buffer of the given layout.
pub fn decode_value_bytes(l: ValueLayout, b: Vec<u8>) -> (r: Buffer)
    ensures
        r@ == decode_values(l, b@),
{
    proof {
        lemma_pow256_16();
    }
    match l {
        ValueLayout::Bytes => Buffer::Bytes(b),
        ValueLayout::W16 => {
            let n = b.len() / 2;
            let mut out: Vec<u16> = Vec::new();
            let mut i: usize = 0;
            while i < n
                invariant
                    n == b@.len() / 2,
                    i <= n,
                    out@.len() == i,
                    forall|j: int| 0 <= j < i ==> #[trigger] out@[j] == word(b@, 2, j) as u16,
                decreases n - i,
            {
                out.push(word_at(&b, 2, i) as u16);
                i += 1;
            }
            assert(out@ =~= words(b@, 2).map_values(|v: nat| v as u16));
            Buffer::Words16(out)
        },
        ValueLayout::W32 => {
            let n = b.len() / 4;
            let mut out: Vec<u32> = Vec::new();
            let mut i: usize = 0;
            while i < n
                invariant
                    n == b@.len() / 4,
                    i <= n,
                    out@.len() == i,
                    forall|j: int| 0 <= j < i ==> #[trigger] out@[j] == word(b@, 4, j) as u32,
                decreases n - i,
            {
                out.push(word_at(&b, 4, i) as u32);
                i += 1;
            }
            assert(out@ =~= words(b@, 4).map_values(|v: nat| v as u32));
            Buffer::Words32(out)
        },
        ValueLayout::W64 => {
            let n = b.len() / 8;
            let mut out: Vec<u64> = Vec::new();
            let mut i: usize = 0;
            while i < n
                invariant
                    n == b@.len() / 8,
                    i <= n,
                    out@.len() == i,
                    forall|j: int| 0 <= j < i ==> #[trigger] out@[j] == word(b@, 8, j) as u64,
                decreases n - i,
            {
                out.push(word_at(&b, 8, i) as u64);
                i += 1;
            }
            assert(out@ =~= words(b@, 8).map_values(|v: nat| v as u64));
            Buffer::Words64(out)
        },
        ValueLayout::W128 => {
            let n = b.len() / 16;
            let mut out: Vec<u128> = Vec::new();
            let mut i: usize = 0;
            while i < n
                invariant
                    n == b@.len() / 16,
                    i <= n,
                    out@.len() == i,
                    forall|j: int| 0 <= j < i ==> #[trigger] out@[j] == word(b@, 16, j) as u128,
                decreases n - i,
            {
                out.push(word_at(&b, 16, i));
                i += 1;
            }
            assert(out@ =~= words(b@, 16).map_values(|v: nat| v as u128));
            Buffer::Words128(out)
        },
        ValueLayout::W256 => {
            let n = b.len() / 32;
            let mut out: Vec<(u128, u128)> = Vec::new();
            let mut i: usize = 0;
            while i < n
                invariant
                    n == b@.len() / 32,
                    b@.len() <= usize::MAX,
                    i <= n,
                    out@.len() == i,
                    forall|j: int|
                        0 <= j < i ==> #[trigger] out@[j] == (
                            word(b@, 16, 2 * j) as u128,
                            word(b@, 16, 2 * j + 1) as u128,
                        ),
                decreases n - i,
            {
                assert(2 * i + 1 < b@.len() / 16);
                let lo = word_at(&b, 16, 2 * i);
                let hi = word_at(&b, 16, 2 * i + 1);
                out.push((lo, hi));
                i += 1;
            }
            assert(out@ =~= Seq::new(
                b@.len() / 32,
                |i: int| (word(b@, 16, 2 * i) as u128, word(b@, 16, 2 * i + 1) as u128),
            ));
            Buffer::Words256(out)
        },
        ValueLayout::MonthDayNano => {
            let n = b.len() / 16;
            let mut out: Vec<(i32, i32, i64)> = Vec::new();
            let mut i: usize = 0;
            while i < n
                invariant
                    n == b@.len() / 16,
                    b@.len() <= usize::MAX,
                    i <= n,
                    out@.len() == i,
                    forall|j: int|
                        0 <= j < i ==> #[trigger] out@[j] == (
                            (word(b@, 4, 4 * j) as u32) as i32,
                            (word(b@, 4, 4 * j + 1) as u32) as i32,
                            (word(b@, 8, 2 * j + 1) as u64) as i64,
                        ),
                decreases n - i,
            {
                assert(4 * i + 1 < b@.len() / 4);
                assert(2 * i + 1 < b@.len() / 8);
                let months = word_at(&b, 4, 4 * i) as u32 as i32;
                let days = word_at(&b, 4, 4 * i + 1) as u32 as i32;
                let nanos = word_at(&b, 8, 2 * i + 1) as u64 as i64;
                out.push((months, days, nanos));
                i += 1;
            }
            assert(out@ =~= Seq::new(
                b@.len() / 16,
                |i: int|
                    (
                        (word(b@, 4, 4 * i) as u32) as i32,
                        (word(b@, 4, 4 * i + 1) as u32) as i32,
                        (word(b@, 8, 2 * i + 1) as u64) as i64,
                    ),
            ));
            Buffer::MonthDayNano(out)
        },
    }
}

/// Decodes host bytes into an offsets buffer of the given layout.
pub fn decode_offset_bytes(l: OffsetLayout, b: &Vec<u8>) -> (r: Buffer)
    ensures
        r@ == decode_offsets(l, b@),
{
    proof {
        lemma_pow256_16();
    }
    match l {
        OffsetLayout::O32 => {
            let n = b.len() / 4;
            let mut out: Vec<i32> = Vec::new();
            let mut i: usize = 0;
            while i < n
                invariant
                    n == b@.len() / 4,
                    i <= n,
                    out@.len() == i,
                    forall|j: int|
                        0 <= j < i ==> #[trigger] out@[j] == (word(b@, 4, j) as u32) as i32,
                decreases n - i,
            {
                out.push(word_at(b, 4, i) as u32 as i32);
                i += 1;
            }
            assert(out@ =~= words(b@, 4).map_values(|v: nat| (v as u32) as i32));
            Buffer::Offsets32(out)
        },
        OffsetLayout::O64 => {
            let n = b.len() / 8;
            let mut out: Vec<i64> = Vec::new();
            let mut i: usize = 0;
            while i < n
                invariant
                    n == b@.len() / 8,
                    i <= n,
                    out@.len() == i,
                    forall|j: int|
                        0 <= j < i ==> #[trigger] out@[j] == (word(b@, 8, j) as u64) as i64,
                decreases n - i,
            {
                out.push(word_at(b, 8, i) as u64 as i64);
                i += 1;
            }
            assert(out@ =~= words(b@, 8).map_values(|v: nat| (v as u64) as i64));
            Buffer::Offsets64(out)
        },
    }
}

/// The `w` little-endian bytes of `x` (taken modulo `256^w`).
pub open spec fn le_bytes(x: nat, w: nat) -> Seq<u8>
    decreases w,
{
    if w == 0 {
        Seq::empty()
    } else {
        le_bytes(x, (w - 1) as nat).push(((x / pow256((w - 1) as nat)) % 256) as u8)
    }
}

proof fn lemma_le_value_push(s: Seq<u8>, b: u8)
    ensures
        le_value(s.push(b)) == le_value(s) + pow256(s.len()) * b,
    decreases s.len(),
{
    if s.len() == 0 {
        assert(s.push(b).drop_first() =~= Seq::<u8>::empty());
        assert(pow256(0) == 1);
        assert(le_value(Seq::<u8>::empty()) == 0);
    } else {
        assert(s.push(b).drop_first() =~= s.drop_first().push(b));
        assert(s.push(b)[0] == s[0]);
        lemma_le_value_push(s.drop_first(), b);
        let a = le_value(s.drop_first());
        let p = pow256((s.len() - 1) as nat);
        assert(pow256(s.len()) == 256 * p);
        assert(256 * (a + p * b) == 256 * a + (256 * p) * b) by (nonlinear_arith);
    }
}

pub proof fn lemma_le_bytes(x: nat, w: nat)
    ensures
        le_bytes(x, w).len() == w,
        le_value(le_bytes(x, w)) == x % pow256(w),
    decreases w,
{
    if w > 0 {
        let p = pow256((w - 1) as nat);
        lemma_le_bytes(x, (w - 1) as nat);
        lemma_le_value_push(le_bytes(x, (w - 1) as nat), ((x / p) % 256) as u8);
        lemma_pow256_positive((w - 1) as nat);
        vstd::arithmetic::div_mod::lemma_mod_breakdown(x as int, p as int, 256);
        assert(p * 256 == pow256(w));
    }
}

proof fn lemma_pow256_positive(n: nat)
    ensures
        pow256(n) > 0,
    decreases n,
{
    if n > 0 {
        lemma_pow256_positive((n - 1) as nat);
    }
}

/// Appends the `w` little-endian bytes of `x`.
pub fn push_le(out: &mut Vec<u8>, x: u128, w: usize)
    requires
        w <= 16,
    ensures
        final(out)@ == old(out)@ + le_bytes(x as nat, w as nat),
{
    let ghost start = out@;
    let mut y: u128 = x;
    let mut k: usize = 0;
    assert(start =~= start + le_bytes(x as nat, 0));
    assert(pow256(0) == 1);
    while k < w
        invariant
            k <= w,
            w <= 16,
            y as nat == x as nat / pow256(k as nat),
            out@ == start + le_bytes(x as nat, k as nat),
        decreases w - k,
    {
        out.push((y % 256) as u8);
        proof {
            lemma_pow256_positive(k as nat);
            vstd::arithmetic::div_mod::lemma_div_denominator(x as int, pow256(k as nat) as int, 256);
            assert(pow256(k as nat) * 256 == pow256((k + 1) as nat));
            assert(out@ =~= start + le_bytes(x as nat, (k + 1) as nat));
        }
        y = y / 256;
        k += 1;
    }
}

/// Whether `bytes` are host bytes of buffer `b`: decoding them in the
/// buffer's own layout gives the buffer back.
pub open spec fn encodes(b: BufferModel, bytes: Seq<u8>) -> bool {
    match b {
        BufferModel::Bytes(v) => bytes == v,
        BufferModel::Words16(_) => bytes.len() % 2 == 0 && decode_values(ValueLayout::W16, bytes) == b,
        BufferModel::Words32(_) => bytes.len() % 4 == 0 && decode_values(ValueLayout::W32, bytes) == b,
        BufferModel::Words64(_) => bytes.len() % 8 == 0 && decode_values(ValueLayout::W64, bytes) == b,
        BufferModel::Words128(_) => bytes.len() % 16 == 0 && decode_values(ValueLayout::W128, bytes)
            == b,
        BufferModel::Words256(_) => bytes.len() % 32 == 0 && decode_values(ValueLayout::W256, bytes)
            == b,
        BufferModel::MonthDayNano(_) => bytes.len() % 16 == 0 && decode_values(
            ValueLayout::MonthDayNano,
            bytes,
        ) == b,
        BufferModel::Offsets32(_) => bytes.len() % 4 == 0 && decode_offsets(OffsetLayout::O32, bytes)
            == b,
        BufferModel::Offsets64(_) => bytes.len() % 8 == 0 && decode_offsets(OffsetLayout::O64, bytes)
            == b,
    }
}

/// The little-endian host bytes of a buffer.
pub fn encode_buffer(b: &Buffer) -> (r: Vec<u8>)
    ensures
        encodes(b@, r@),
{
    match b {
        Buffer::Bytes(v) => {
            let mut out: Vec<u8> = Vec::new();
            let mut i: usize = 0;
            while i < v.len()
                invariant
                    i <= v@.len(),
                    out@ == v@.subrange(0, i as int),
                decreases v@.len() - i,
            {
                out.push(v[i]);
                i += 1;
                assert(out@ =~= v@.subrange(0, i as int));
            }
            assert(out@ =~= v@);
            out
        },
        Buffer::Words16(v) => {
            let mut out: Vec<u8> = Vec::new();
            let mut i: usize = 0;
            while i < v.len()
                invariant
                    i <= v@.len(),
                    out@.len() == i * 2,
                    forall|j: int|
                        0 <= j < i ==> #[trigger] out@.subrange(j * 2, j * 2 + 2) == le_bytes(
                            v@[j] as nat,
                            2,
                        ),
                decreases v@.len() - i,
            {
                let ghost before = out@;
                push_le(&mut out, v[i] as u128, 2);
                proof {
                    lemma_le_bytes(v@[i as int] as nat, 2);
                    assert forall|j: int| 0 <= j < i + 1 implies #[trigger] out@.subrange(
                        j * 2,
                        j * 2 + 2,
                    ) == le_bytes(v@[j] as nat, 2) by {
                        if j < i {
                            assert(out@.subrange(j * 2, j * 2 + 2) =~= before.subrange(
                                j * 2,
                                j * 2 + 2,
                            ));
                        } else {
                            assert(out@.subrange(j * 2, j * 2 + 2) =~= le_bytes(
                                v@[j] as nat,
                                2,
                            ));
                        }
                    }
                }
                i += 1;
            }
            proof {
                lemma_pow256_16();
                assert forall|j: int| 0 <= j < v@.len() implies #[trigger] word(out@, 2, j)
                    == v@[j] as nat by {
                    lemma_le_bytes(v@[j] as nat, 2);
                }
                let d = decode_values(ValueLayout::W16, out@);
                assert(d->Words16_0 =~= v@);
            }
            out
        },
        Buffer::Words32(v) => {
            let mut out: Vec<u8> = Vec::new();
            let mut i: usize = 0;
            while i < v.len()
                invariant
                    i <= v@.len(),
                    out@.len() == i * 4,
                    forall|j: int|
                        0 <= j < i ==> #[trigger] out@.subrange(j * 4, j * 4 + 4) == le_bytes(
                            v@[j] as nat,
                            4,
                        ),
                decreases v@.len() - i,
            {
                let ghost before = out@;
                push_le(&mut out, v[i] as u128, 4);
                proof {
                    lemma_le_bytes(v@[i as int] as nat, 4);
                    assert forall|j: int| 0 <= j < i + 1 implies #[trigger] out@.subrange(
                        j * 4,
                        j * 4 + 4,
                    ) == le_bytes(v@[j] as nat, 4) by {
                        if j < i {
                            assert(out@.subrange(j * 4, j * 4 + 4) =~= before.subrange(
                                j * 4,
                                j * 4 + 4,
                            ));
                        } else {
                            assert(out@.subrange(j * 4, j * 4 + 4) =~= le_bytes(
                                v@[j] as nat,
                                4,
                            ));
                        }
                    }
                }
                i += 1;
            }
            proof {
                lemma_pow256_16();
                assert forall|j: int| 0 <= j < v@.len() implies #[trigger] word(out@, 4, j)
                    == v@[j] as nat by {
                    lemma_le_bytes(v@[j] as nat, 4);
                }
                let d = decode_values(ValueLayout::W32, out@);
                assert(d->Words32_0 =~= v@);
            }
            out
        },
        Buffer::Words64(v) => {
            let mut out: Vec<u8> = Vec::new();
            let mut i: usize = 0;
            while i < v.len()
                invariant
                    i <= v@.len(),
                    out@.len() == i * 8,
                    forall|j: int|
                        0 <= j < i ==> #[trigger] out@.subrange(j * 8, j * 8 + 8) == le_bytes(
                            v@[j] as nat,
                            8,
                        ),
                decreases v@.len() - i,
            {
                let ghost before = out@;
                push_le(&mut out, v[i] as u128, 8);
                proof {
                    lemma_le_bytes(v@[i as int] as nat, 8);
                    assert forall|j: int| 0 <= j < i + 1 implies #[trigger] out@.subrange(
                        j * 8,
                        j * 8 + 8,
                    ) == le_bytes(v@[j] as nat, 8) by {
                        if j < i {
                            assert(out@.subrange(j * 8, j * 8 + 8) =~= before.subrange(
                                j * 8,
                                j * 8 + 8,
                            ));
                        } else {
                            assert(out@.subrange(j * 8, j * 8 + 8) =~= le_bytes(
                                v@[j] as nat,
                                8,
                            ));
                        }
                    }
                }
                i += 1;
            }
            proof {
                lemma_pow256_16();
                assert forall|j: int| 0 <= j < v@.len() implies #[trigger] word(out@, 8, j)
                    == v@[j] as nat by {
                    lemma_le_bytes(v@[j] as nat, 8);
                }
                let d = decode_values(ValueLayout::W64, out@);
                assert(d->Words64_0 =~= v@);
            }
            out
        },
        Buffer::Words128(v) => {
            let mut out: Vec<u8> = Vec::new();
            let mut i: usize = 0;
            while i < v.len()
                invariant
                    i <= v@.len(),
                    out@.len() == i * 16,
                    forall|j: int|
                        0 <= j < i ==> #[trigger] out@.subrange(j * 16, j * 16 + 16) == le_bytes(
                            v@[j] as nat,
                            16,
                        ),
                decreases v@.len() - i,
            {
                let ghost before = out@;
                push_le(&mut out, v[i] as u128, 16);
                proof {
                    lemma_le_bytes(v@[i as int] as nat, 16);
                    assert forall|j: int| 0 <= j < i + 1 implies #[trigger] out@.subrange(
                        j * 16,
                        j * 16 + 16,
                    ) == le_bytes(v@[j] as nat, 16) by {
                        if j < i {
                            assert(out@.subrange(j * 16, j * 16 + 16) =~= before.subrange(
                                j * 16,
                                j * 16 + 16,
                            ));
                        } else {
                            assert(out@.subrange(j * 16, j * 16 + 16) =~= le_bytes(
                                v@[j] as nat,
                                16,
                            ));
                        }
                    }
                }
                i += 1;
            }
            proof {
                lemma_pow256_16();
                assert forall|j: int| 0 <= j < v@.len() implies #[trigger] word(out@, 16, j)
                    == v@[j] as nat by {
                    lemma_le_bytes(v@[j] as nat, 16);
                }
                let d = decode_values(ValueLayout::W128, out@);
                assert(d->Words128_0 =~= v@);
            }
            out
        },
        Buffer::Offsets32(v) => {
            let mut out: Vec<u8> = Vec::new();
            let mut i: usize = 0;
            while i < v.len()
                invariant
                    i <= v@.len(),
                    out@.len() == i * 4,
                    forall|j: int|
                        0 <= j < i ==> #[trigger] out@.subrange(j * 4, j * 4 + 4) == le_bytes(
                            (v@[j] as u32) as nat,
                            4,
                        ),
                decreases v@.len() - i,
            {
                let ghost before = out@;
                push_le(&mut out, (v[i] as u32) as u128, 4);
                proof {
                    lemma_le_bytes((v@[i as int] as u32) as nat, 4);
                    assert forall|j: int| 0 <= j < i + 1 implies #[trigger] out@.subrange(
                        j * 4,
                        j * 4 + 4,
                    ) == le_bytes((v@[j] as u32) as nat, 4) by {
                        if j < i {
                            assert(out@.subrange(j * 4, j * 4 + 4) =~= before.subrange(
                                j * 4,
                                j * 4 + 4,
                            ));
                        } else {
                            assert(out@.subrange(j * 4, j * 4 + 4) =~= le_bytes(
                                (v@[j] as u32) as nat,
                                4,
                            ));
                        }
                    }
                }
                i += 1;
            }
            proof {
                lemma_pow256_16();
                assert forall|j: int| 0 <= j < v@.len() implies #[trigger] word(out@, 4, j)
                    == (v@[j] as u32) as nat by {
                    lemma_le_bytes((v@[j] as u32) as nat, 4);
                }
                assert forall|j: int| 0 <= j < v@.len() implies #[trigger] (v@[j] as u32) as i32 == v@[j] by {
                    let x = v@[j];
                    assert((x as u32) as i32 == x) by (bit_vector);
                }
                let d = decode_offsets(OffsetLayout::O32, out@);
                assert(d->Offsets32_0 =~= v@);
            }
            out
        },
        Buffer::Offsets64(v) => {
            let mut out: Vec<u8> = Vec::new();
            let mut i: usize = 0;
            while i < v.len()
                invariant
                    i <= v@.len(),
                    out@.len() == i * 8,
                    forall|j: int|
                        0 <= j < i ==> #[trigger] out@.subrange(j * 8, j * 8 + 8) == le_bytes(
                            (v@[j] as u64) as nat,
                            8,
                        ),
                decreases v@.len() - i,
            {
                let ghost before = out@;
                push_le(&mut out, (v[i] as u64) as u128, 8);
                proof {
                    lemma_le_bytes((v@[i as int] as u64) as nat, 8);
                    assert forall|j: int| 0 <= j < i + 1 implies #[trigger] out@.subrange(
                        j * 8,
                        j * 8 + 8,
                    ) == le_bytes((v@[j] as u64) as nat, 8) by {
                        if j < i {
                            assert(out@.subrange(j * 8, j * 8 + 8) =~= before.subrange(
                                j * 8,
                                j * 8 + 8,
                            ));
                        } else {
                            assert(out@.subrange(j * 8, j * 8 + 8) =~= le_bytes(
                                (v@[j] as u64) as nat,
                                8,
                            ));
                        }
                    }
                }
                i += 1;
            }
            proof {
                lemma_pow256_16();
                assert forall|j: int| 0 <= j < v@.len() implies #[trigger] word(out@, 8, j)
                    == (v@[j] as u64) as nat by {
                    lemma_le_bytes((v@[j] as u64) as nat, 8);
                }
                assert forall|j: int| 0 <= j < v@.len() implies #[trigger] (v@[j] as u64) as i64 == v@[j] by {
                    let x = v@[j];
                    assert((x as u64) as i64 == x) by (bit_vector);
                }
                let d = decode_offsets(OffsetLayout::O64, out@);
                assert(d->Offsets64_0 =~= v@);
            }
            out
        },
        Buffer::Words256(v) => {
            let mut out: Vec<u8> = Vec::new();
            let mut i: usize = 0;
            while i < v.len()
                invariant
                    i <= v@.len(),
                    out@.len() == i * 32,
                    forall|j: int|
                        0 <= j < i ==> #[trigger] out@.subrange(j * 32, j * 32 + 16) == le_bytes(
                            v@[j].0 as nat,
                            16,
                        ),
                    forall|j: int|
                        0 <= j < i ==> #[trigger] out@.subrange(j * 32 + 16, j * 32 + 32) == le_bytes(
                            v@[j].1 as nat,
                            16,
                        ),
                decreases v@.len() - i,
            {
                let ghost before = out@;
                push_le(&mut out, v[i].0, 16);
                push_le(&mut out, v[i].1, 16);
                proof {
                    lemma_le_bytes(v@[i as int].0 as nat, 16);
                    lemma_le_bytes(v@[i as int].1 as nat, 16);
                    assert forall|j: int| 0 <= j < i + 1 implies out@.subrange(
                        j * 32,
                        j * 32 + 16,
                    ) == le_bytes(v@[j].0 as nat, 16) && out@.subrange(j * 32 + 16, j * 32 + 32)
                        == le_bytes(v@[j].1 as nat, 16) by {
                        if j < i {
                            assert(out@.subrange(j * 32, j * 32 + 16) =~= before.subrange(
                                j * 32,
                                j * 32 + 16,
                            ));
                            assert(out@.subrange(j * 32 + 16, j * 32 + 32) =~= before.subrange(
                                j * 32 + 16,
                                j * 32 + 32,
                            ));
                        } else {
                            assert(out@.subrange(j * 32, j * 32 + 16) =~= le_bytes(
                                v@[j].0 as nat,
                                16,
                            ));
                            assert(out@.subrange(j * 32 + 16, j * 32 + 32) =~= le_bytes(
                                v@[j].1 as nat,
                                16,
                            ));
                        }
                    }
                }
                i += 1;
            }
            proof {
                lemma_pow256_16();
                assert forall|j: int| 0 <= j < v@.len() implies #[trigger] word(out@, 16, 2 * j)
                    == v@[j].0 as nat && word(out@, 16, 2 * j + 1) == v@[j].1 as nat by {
                    lemma_le_bytes(v@[j].0 as nat, 16);
                    lemma_le_bytes(v@[j].1 as nat, 16);
                    assert(out@.subrange(j * 32, j * 32 + 16) == le_bytes(v@[j].0 as nat, 16));
                    assert(out@.subrange(j * 32 + 16, j * 32 + 32) == le_bytes(v@[j].1 as nat, 16));
                    assert(out@.subrange((2 * j) * 16, (2 * j) * 16 + 16) == out@.subrange(
                        j * 32,
                        j * 32 + 16,
                    ));
                    assert(out@.subrange((2 * j + 1) * 16, (2 * j + 1) * 16 + 16) == out@.subrange(
                        j * 32 + 16,
                        j * 32 + 32,
                    ));
                }
                let d = decode_values(ValueLayout::W256, out@);
                assert(d->Words256_0 =~= v@);
            }
            out
        },
        Buffer::MonthDayNano(v) => {
            let mut out: Vec<u8> = Vec::new();
            let mut i: usize = 0;
            while i < v.len()
                invariant
                    i <= v@.len(),
                    out@.len() == i * 16,
                    forall|j: int|
                        0 <= j < i ==> #[trigger] out@.subrange(j * 16, j * 16 + 4) == le_bytes(
                            (v@[j].0 as u32) as nat,
                            4,
                        ),
                    forall|j: int|
                        0 <= j < i ==> #[trigger] out@.subrange(j * 16 + 4, j * 16 + 8) == le_bytes(
                            (v@[j].1 as u32) as nat,
                            4,
                        ),
                    forall|j: int|
                        0 <= j < i ==> #[trigger] out@.subrange(j * 16 + 8, j * 16 + 16) == le_bytes(
                            (v@[j].2 as u64) as nat,
                            8,
                        ),
                decreases v@.len() - i,
            {
                let ghost before = out@;
                push_le(&mut out, v[i].0 as u32 as u128, 4);
                push_le(&mut out, v[i].1 as u32 as u128, 4);
                push_le(&mut out, v[i].2 as u64 as u128, 8);
                proof {
                    lemma_le_bytes((v@[i as int].0 as u32) as nat, 4);
                    lemma_le_bytes((v@[i as int].1 as u32) as nat, 4);
                    lemma_le_bytes((v@[i as int].2 as u64) as nat, 8);
                    assert forall|j: int| 0 <= j < i + 1 implies out@.subrange(
                        j * 16,
                        j * 16 + 4,
                    ) == le_bytes((v@[j].0 as u32) as nat, 4) && out@.subrange(j * 16 + 4, j * 16 + 8)
                        == le_bytes((v@[j].1 as u32) as nat, 4) && out@.subrange(
                        j * 16 + 8,
                        j * 16 + 16,
                    ) == le_bytes((v@[j].2 as u64) as nat, 8) by {
                        if j < i {
                            assert(out@.subrange(j * 16, j * 16 + 4) =~= before.subrange(
                                j * 16,
                                j * 16 + 4,
                            ));
                            assert(out@.subrange(j * 16 + 4, j * 16 + 8) =~= before.subrange(
                                j * 16 + 4,
                                j * 16 + 8,
                            ));
                            assert(out@.subrange(j * 16 + 8, j * 16 + 16) =~= before.subrange(
                                j * 16 + 8,
                                j * 16 + 16,
                            ));
                        } else {
                            assert(out@.subrange(j * 16, j * 16 + 4) =~= le_bytes(
                                (v@[j].0 as u32) as nat,
                                4,
                            ));
                            assert(out@.subrange(j * 16 + 4, j * 16 + 8) =~= le_bytes(
                                (v@[j].1 as u32) as nat,
                                4,
                            ));
                            assert(out@.subrange(j * 16 + 8, j * 16 + 16) =~= le_bytes(
                                (v@[j].2 as u64) as nat,
                                8,
                            ));
                        }
                    }
                }
                i += 1;
            }
            proof {
                lemma_pow256_16();
                assert forall|j: int| 0 <= j < v@.len() implies #[trigger] word(out@, 4, 4 * j)
                    == (v@[j].0 as u32) as nat && word(out@, 4, 4 * j + 1) == (v@[j].1 as u32) as nat
                    && word(out@, 8, 2 * j + 1) == (v@[j].2 as u64) as nat by {
                    lemma_le_bytes((v@[j].0 as u32) as nat, 4);
                    lemma_le_bytes((v@[j].1 as u32) as nat, 4);
                    lemma_le_bytes((v@[j].2 as u64) as nat, 8);
                    assert(out@.subrange(j * 16, j * 16 + 4) == le_bytes((v@[j].0 as u32) as nat, 4));
                    assert(out@.subrange(j * 16 + 4, j * 16 + 8) == le_bytes(
                        (v@[j].1 as u32) as nat,
                        4,
                    ));
                    assert(out@.subrange(j * 16 + 8, j * 16 + 16) == le_bytes(
                        (v@[j].2 as u64) as nat,
                        8,
                    ));
                    assert(out@.subrange((4 * j) * 4, (4 * j) * 4 + 4) == out@.subrange(
                        j * 16,
                        j * 16 + 4,
                    ));
                    assert(out@.subrange((4 * j + 1) * 4, (4 * j + 1) * 4 + 4) == out@.subrange(
                        j * 16 + 4,
                        j * 16 + 8,
                    ));
                    assert(out@.subrange((2 * j + 1) * 8, (2 * j + 1) * 8 + 8) == out@.subrange(
                        j * 16 + 8,
                        j * 16 + 16,
                    ));
                }
                assert forall|j: int| 0 <= j < v@.len() implies ((#[trigger] v@[j]).0 as u32) as i32
                    == v@[j].0 && (v@[j].1 as u32) as i32 == v@[j].1 && (v@[j].2 as u64) as i64
                    == v@[j].2 by {
                    let (a, b, c) = v@[j];
                    assert((a as u32) as i32 == a) by (bit_vector);
                    assert((b as u32) as i32 == b) by (bit_vector);
                    assert((c as u64) as i64 == c) by (bit_vector);
                }
                let d = decode_values(ValueLayout::MonthDayNano, out@);
                assert(d->MonthDayNano_0 =~= v@);
            }
            out
        },
    }
}

} // verus!
