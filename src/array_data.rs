//! Array data: a typed node of buffers and child arrays, validated against
//! the layout that its type prescribes.
use vstd::prelude::*;

use crate::buffer::{
    offset_layout, offset_layout_of, value_layout, value_layout_of, Buffer, BufferModel,
    OffsetLayout, ValueLayout,
};
use crate::datatype::{DataType, LogicalType};
use crate::error::{ArrayConstructionError, ArrowWasmError};

verus! {

/// The role and element kind of one buffer of a layout.
#[derive(Debug, Clone, Copy, PartialEq, Eq, Structural)]
pub enum BufferSlot {
    Offsets(OffsetLayout),
    Values(ValueLayout),
}

/// Whether a type keeps a values buffer at its own node. Fixed-size binary
/// values are decoded like bytes but do not stand at the node.
pub open spec fn has_values_buffer(t: LogicalType) -> bool {
    value_layout(t) is Some && !(t is FixedSizeBinary)
}

/// The buffers that a type prescribes, in order; `None` for the types that
/// have no import layout (unions and run-end encoded arrays).
pub open spec fn buffer_slots(t: LogicalType) -> Option<Seq<BufferSlot>> {
    if t is Union || t is RunEndEncoded {
        None
    } else {
        let offsets = match offset_layout(t) {
            Some(o) => seq![BufferSlot::Offsets(o)],
            None => Seq::<BufferSlot>::empty(),
        };
        let values = if has_values_buffer(t) {
            seq![BufferSlot::Values(value_layout(t).unwrap())]
        } else {
            Seq::<BufferSlot>::empty()
        };
        Some(offsets + values)
    }
}

/// The number of child arrays that a type prescribes.
pub open spec fn expected_children(t: LogicalType) -> nat {
    match t {
        LogicalType::List(_) | LogicalType::LargeList(_) | LogicalType::FixedSizeList(_, _)
        | LogicalType::Map_(_, _) => 1,
        LogicalType::Struct(fs) => fs.len(),
        LogicalType::Union(fs, _) => fs.len(),
        LogicalType::RunEndEncoded(_, _) => 2,
        _ => 0,
    }
}

/// Whether a buffer has the element kind of a slot.
pub open spec fn slot_matches(s: BufferSlot, b: BufferModel) -> bool {
    match s {
        BufferSlot::Offsets(OffsetLayout::O32) => b is Offsets32,
        BufferSlot::Offsets(OffsetLayout::O64) => b is Offsets64,
        BufferSlot::Values(ValueLayout::Bytes) => b is Bytes,
        BufferSlot::Values(ValueLayout::W16) => b is Words16,
        BufferSlot::Values(ValueLayout::W32) => b is Words32,
        BufferSlot::Values(ValueLayout::W64) => b is Words64,
        BufferSlot::Values(ValueLayout::W128) => b is Words128,
        BufferSlot::Values(ValueLayout::W256) => b is Words256,
        BufferSlot::Values(ValueLayout::MonthDayNano) => b is MonthDayNano,
    }
}

/// Bytes needed for `bits` bits.
pub open spec fn bytes_for_bits(bits: nat) -> nat {
    (bits + 7) / 8
}

/// The least number of elements a buffer in a slot needs for an array that
/// spans `end` slots of its buffers (`offset + length`).
pub open spec fn slot_min_len(t: LogicalType, s: BufferSlot, len: nat, end: nat) -> nat {
    match s {
        BufferSlot::Offsets(_) => if len == 0 {
            0
        } else {
            end + 1
        },
        BufferSlot::Values(_) => if t is Boolean {
            bytes_for_bits(end)
        } else if offset_layout(t) is Some {
            0
        } else {
            end
        },
    }
}

/// The first kind mismatch among the buffers, if any.
pub open spec fn first_kind_mismatch(slots: Seq<BufferSlot>, bufs: Seq<BufferModel>) -> Option<
    nat,
>
    decreases slots.len(),
{
    if slots.len() == 0 {
        None
    } else {
        match first_kind_mismatch(slots.drop_last(), bufs) {
            Some(i) => Some(i),
            None => if slot_matches(slots.last(), bufs[slots.len() - 1]) {
                None
            } else {
                Some((slots.len() - 1) as nat)
            },
        }
    }
}

/// The first buffer shorter than the array needs, if any.
pub open spec fn first_short_buffer(
    t: LogicalType,
    slots: Seq<BufferSlot>,
    bufs: Seq<BufferModel>,
    len: nat,
    end: nat,
) -> Option<nat>
    decreases slots.len(),
{
    if slots.len() == 0 {
        None
    } else {
        match first_short_buffer(t, slots.drop_last(), bufs, len, end) {
            Some(i) => Some(i),
            None => if bufs[slots.len() - 1].len() >= slot_min_len(t, slots.last(), len, end) {
                None
            } else {
                Some((slots.len() - 1) as nat)
            },
        }
    }
}

/// What is wrong with array data, checked in this order: a type without
/// layout, the number of buffers, their kinds, the number of children, an
/// end (`offset + length`) that is not below the largest machine word, a short
/// null bitmap, a short buffer.
pub open spec fn construction_error(
    t: LogicalType,
    len: nat,
    offset: nat,
    nulls: Option<Seq<u8>>,
    bufs: Seq<BufferModel>,
    n_children: nat,
) -> Option<ArrayConstructionError> {
    match buffer_slots(t) {
        None => Some(ArrayConstructionError::UnsupportedType),
        Some(slots) => if bufs.len() != slots.len() {
            Some(
                ArrayConstructionError::BufferCount {
                    expected: slots.len() as usize,
                    found: bufs.len() as usize,
                },
            )
        } else if first_kind_mismatch(slots, bufs) is Some {
            Some(
                ArrayConstructionError::BufferKind {
                    index: first_kind_mismatch(slots, bufs).unwrap() as usize,
                },
            )
        } else if n_children != expected_children(t) {
            Some(
                ArrayConstructionError::ChildCount {
                    expected: expected_children(t) as usize,
                    found: n_children as usize,
                },
            )
        } else if offset + len >= usize::MAX {
            Some(ArrayConstructionError::LengthOverflow)
        } else if nulls is Some && nulls.unwrap().len() < bytes_for_bits(offset + len) {
            Some(ArrayConstructionError::NullBitmapTooShort)
        } else if first_short_buffer(t, slots, bufs, len, offset + len) is Some {
            Some(
                ArrayConstructionError::BufferTooShort {
                    index: first_short_buffer(t, slots, bufs, len, offset + len).unwrap() as usize,
                },
            )
        } else {
            None
        },
    }
}

/// A typed array node: `len` slots from `offset` on in its buffers, an
/// optional null bitmap (bit set: valid), and its child arrays.
#[derive(Debug)]
pub struct ArrayData {
    data_type: DataType,
    len: usize,
    offset: usize,
    nulls: Option<Vec<u8>>,
    buffers: Vec<Buffer>,
    child_data: Vec<ArrayData>,
}

/// Mathematical model of [`ArrayData`].
pub struct ArrayDataModel {
    pub data_type: LogicalType,
    pub len: nat,
    pub offset: nat,
    pub nulls: Option<Seq<u8>>,
    pub buffers: Seq<BufferModel>,
    pub children: Seq<ArrayDataModel>,
}

pub open spec fn nulls_view(n: Option<Vec<u8>>) -> Option<Seq<u8>> {
    match n {
        Some(v) => Some(v@),
        None => None,
    }
}

pub open spec fn buffers_view(bs: Seq<Buffer>) -> Seq<BufferModel> {
    bs.map_values(|b: Buffer| b@)
}

pub closed spec fn data_view(d: ArrayData) -> ArrayDataModel
    decreases d,
{
    ArrayDataModel {
        data_type: d.data_type@,
        len: d.len as nat,
        offset: d.offset as nat,
        nulls: nulls_view(d.nulls),
        buffers: buffers_view(d.buffers@),
        children: children_view(d.child_data@),
    }
}

/// The models of a sequence of arrays, in order.
pub closed spec fn children_view(cs: Seq<ArrayData>) -> Seq<ArrayDataModel>
    decreases cs,
{
    if cs.len() == 0 {
        Seq::empty()
    } else {
        children_view(cs.subrange(0, cs.len() - 1)).push(data_view(cs[cs.len() - 1]))
    }
}

impl View for ArrayData {
    type V = ArrayDataModel;

    closed spec fn view(&self) -> ArrayDataModel {
        data_view(*self)
    }
}

/// Whether a model satisfies the layout rules of its own type.
pub open spec fn layout_ok(d: ArrayDataModel) -> bool {
    construction_error(d.data_type, d.len, d.offset, d.nulls, d.buffers, d.children.len())
        is None
}

pub proof fn lemma_children_view_len(cs: Seq<ArrayData>)
    ensures
        children_view(cs).len() == cs.len(),
    decreases cs.len(),
{
    if cs.len() > 0 {
        lemma_children_view_len(cs.subrange(0, cs.len() - 1));
    }
}

pub proof fn lemma_children_view_empty()
    ensures
        children_view(Seq::<ArrayData>::empty()) == Seq::<ArrayDataModel>::empty(),
{
}

pub proof fn lemma_children_view_push(cs: Seq<ArrayData>, c: ArrayData)
    ensures
        children_view(cs.push(c)) == children_view(cs).push(c@),
{
    assert(cs.push(c).subrange(0, cs.len() as int) =~= cs);
}

impl ArrayData {
    /// Every array data value satisfies the layout rules of its type.
    #[verifier::type_invariant]
    spec fn inv(&self) -> bool {
        construction_error(
            self.data_type@,
            self.len as nat,
            self.offset as nat,
            nulls_view(self.nulls),
            buffers_view(self.buffers@),
            self.child_data@.len(),
        ) is None
    }

}

/// The buffers that a type prescribes, in order.
pub fn buffer_slots_of(t: &DataType) -> (r: Option<Vec<BufferSlot>>)
    ensures
        match r {
            Some(v) => buffer_slots(t@) == Some(v@),
            None => buffer_slots(t@) is None,
        },
{
    match t {
        DataType::Union(_, _) | DataType::RunEndEncoded(_, _) => None,
        _ => {
            let mut slots: Vec<BufferSlot> = Vec::new();
            match offset_layout_of(t) {
                Some(o) => slots.push(BufferSlot::Offsets(o)),
                None => {},
            }
            let fixed_size_binary = match t {
                DataType::FixedSizeBinary(_) => true,
                _ => false,
            };
            match value_layout_of(t) {
                Some(l) => if !fixed_size_binary {
                    slots.push(BufferSlot::Values(l));
                },
                None => {},
            }
            assert(slots@ =~= buffer_slots(t@).unwrap());
            Some(slots)
        },
    }
}

/// The number of child arrays that a type prescribes.
pub fn expected_children_of(t: &DataType) -> (r: usize)
    ensures
        r == expected_children(t@),
{
    match t {
        DataType::List(_) | DataType::LargeList(_) | DataType::FixedSizeList(_, _)
        | DataType::Map_(_, _) => 1,
        DataType::Struct(fs) => {
            proof {
                crate::datatype::lemma_fields_view_len(fs@);
            }
            fs.len()
        },
        DataType::Union(fs, _) => {
            proof {
                crate::datatype::lemma_union_view_len(fs@);
            }
            fs.len()
        },
        DataType::RunEndEncoded(_, _) => 2,
        _ => 0,
    }
}

fn slot_matches_buffer(s: BufferSlot, b: &Buffer) -> (r: bool)
    ensures
        r == slot_matches(s, b@),
{
    match (s, b) {
        (BufferSlot::Offsets(OffsetLayout::O32), Buffer::Offsets32(_)) => true,
        (BufferSlot::Offsets(OffsetLayout::O64), Buffer::Offsets64(_)) => true,
        (BufferSlot::Values(ValueLayout::Bytes), Buffer::Bytes(_)) => true,
        (BufferSlot::Values(ValueLayout::W16), Buffer::Words16(_)) => true,
        (BufferSlot::Values(ValueLayout::W32), Buffer::Words32(_)) => true,
        (BufferSlot::Values(ValueLayout::W64), Buffer::Words64(_)) => true,
        (BufferSlot::Values(ValueLayout::W128), Buffer::Words128(_)) => true,
        (BufferSlot::Values(ValueLayout::W256), Buffer::Words256(_)) => true,
        (BufferSlot::Values(ValueLayout::MonthDayNano), Buffer::MonthDayNano(_)) => true,
        _ => false,
    }
}

proof fn lemma_kind_mismatch_prefix(slots: Seq<BufferSlot>, bufs: Seq<BufferModel>, i: int)
    requires
        0 <= i <= slots.len(),
        first_kind_mismatch(slots.subrange(0, i), bufs) is Some,
    ensures
        first_kind_mismatch(slots, bufs) == first_kind_mismatch(slots.subrange(0, i), bufs),
    decreases slots.len() - i,
{
    if i < slots.len() {
        assert(slots.subrange(0, i + 1).drop_last() =~= slots.subrange(0, i));
        lemma_kind_mismatch_prefix(slots, bufs, i + 1);
    } else {
        assert(slots.subrange(0, i) =~= slots);
    }
}

fn find_kind_mismatch(slots: &Vec<BufferSlot>, bufs: &Vec<Buffer>) -> (r: Option<usize>)
    requires
        slots@.len() == bufs@.len(),
    ensures
        r == match first_kind_mismatch(slots@, buffers_view(bufs@)) {
            Some(i) => Some(i as usize),
            None => None::<usize>,
        },
{
    let ghost bv = buffers_view(bufs@);
    let mut i: usize = 0;
    while i < slots.len()
        invariant
            i <= slots@.len(),
            slots@.len() == bufs@.len(),
            bv == buffers_view(bufs@),
            first_kind_mismatch(slots@.subrange(0, i as int), bv) is None,
        decreases slots@.len() - i,
    {
        let ghost next = slots@.subrange(0, i as int + 1);
        assert(next.drop_last() =~= slots@.subrange(0, i as int));
        if !slot_matches_buffer(slots[i], &bufs[i]) {
            proof {
                lemma_kind_mismatch_prefix(slots@, bv, i as int + 1);
            }
            return Some(i);
        }
        i += 1;
    }
    assert(slots@.subrange(0, i as int) =~= slots@);
    None
}

proof fn lemma_short_buffer_prefix(
    t: LogicalType,
    slots: Seq<BufferSlot>,
    bufs: Seq<BufferModel>,
    len: nat,
    end: nat,
    i: int,
)
    requires
        0 <= i <= slots.len(),
        first_short_buffer(t, slots.subrange(0, i), bufs, len, end) is Some,
    ensures
        first_short_buffer(t, slots, bufs, len, end) == first_short_buffer(
            t,
            slots.subrange(0, i),
            bufs,
            len,
            end,
        ),
    decreases slots.len() - i,
{
    if i < slots.len() {
        assert(slots.subrange(0, i + 1).drop_last() =~= slots.subrange(0, i));
        lemma_short_buffer_prefix(t, slots, bufs, len, end, i + 1);
    } else {
        assert(slots.subrange(0, i) =~= slots);
    }
}

fn slot_min_len_of(t: &DataType, s: BufferSlot, len: usize, end: usize) -> (r: usize)
    requires
        end < usize::MAX,
    ensures
        r == slot_min_len(t@, s, len as nat, end as nat),
{
    match s {
        BufferSlot::Offsets(_) => if len == 0 {
            0
        } else {
            end + 1
        },
        BufferSlot::Values(_) => match t {
            DataType::Boolean => end / 8 + if end % 8 == 0 {
                0
            } else {
                1
            },
            _ => if offset_layout_of(t).is_some() {
                0
            } else {
                end
            },
        },
    }
}

fn find_short_buffer(t: &DataType, slots: &Vec<BufferSlot>, bufs: &Vec<Buffer>, len: usize, end: usize) -> (r:
    Option<usize>)
    requires
        slots@.len() == bufs@.len(),
        end < usize::MAX,
    ensures
        r == match first_short_buffer(t@, slots@, buffers_view(bufs@), len as nat, end as nat) {
            Some(i) => Some(i as usize),
            None => None::<usize>,
        },
{
    let ghost bv = buffers_view(bufs@);
    let mut i: usize = 0;
    while i < slots.len()
        invariant
            i <= slots@.len(),
            slots@.len() == bufs@.len(),
            end < usize::MAX,
            bv == buffers_view(bufs@),
            first_short_buffer(t@, slots@.subrange(0, i as int), bv, len as nat, end as nat) is None,
        decreases slots@.len() - i,
    {
        let ghost next = slots@.subrange(0, i as int + 1);
        assert(next.drop_last() =~= slots@.subrange(0, i as int));
        if bufs[i].len() < slot_min_len_of(t, slots[i], len, end) {
            proof {
                lemma_short_buffer_prefix(t@, slots@, bv, len as nat, end as nat, i as int + 1);
            }
            return Some(i);
        }
        i += 1;
    }
    assert(slots@.subrange(0, i as int) =~= slots@);
    None
}

impl ArrayData {
    /// Builds array data after checking it against the layout of its type;
    /// the error names the first rule broken, in the order of
    /// [`construction_error`].
    pub fn try_new(
        data_type: DataType,
        len: usize,
        nulls: Option<Vec<u8>>,
        offset: usize,
        buffers: Vec<Buffer>,
        child_data: Vec<ArrayData>,
    ) -> (r: Result<ArrayData, ArrowWasmError>)
        ensures
            match construction_error(
                data_type@,
                len as nat,
                offset as nat,
                nulls_view(nulls),
                buffers_view(buffers@),
                child_data@.len(),
            ) {
                Some(e) => r == Err::<ArrayData, ArrowWasmError>(
                    ArrowWasmError::ArrayConstruction(e),
                ),
                None => r is Ok && r.unwrap()@ == (ArrayDataModel {
                    data_type: data_type@,
                    len: len as nat,
                    offset: offset as nat,
                    nulls: nulls_view(nulls),
                    buffers: buffers_view(buffers@),
                    children: children_view(child_data@),
                }),
            },
    {
        let slots = match buffer_slots_of(&data_type) {
            Some(s) => s,
            None => {
                return Err(ArrowWasmError::ArrayConstruction(ArrayConstructionError::UnsupportedType));
            },
        };
        if buffers.len() != slots.len() {
            return Err(
                ArrowWasmError::ArrayConstruction(
                    ArrayConstructionError::BufferCount { expected: slots.len(), found: buffers.len() },
                ),
            );
        }
        match find_kind_mismatch(&slots, &buffers) {
            Some(index) => {
                return Err(
                    ArrowWasmError::ArrayConstruction(ArrayConstructionError::BufferKind { index }),
                );
            },
            None => {},
        }
        let expected = expected_children_of(&data_type);
        if child_data.len() != expected {
            return Err(
                ArrowWasmError::ArrayConstruction(
                    ArrayConstructionError::ChildCount { expected, found: child_data.len() },
                ),
            );
        }
        if offset > usize::MAX - len {
            return Err(ArrowWasmError::ArrayConstruction(ArrayConstructionError::LengthOverflow));
        }
        let end = offset + len;
        if end == usize::MAX {
            // One past the last slot must stay representable.
            return Err(ArrowWasmError::ArrayConstruction(ArrayConstructionError::LengthOverflow));
        }
        match &nulls {
            Some(bits) => {
                let need = end / 8 + if end % 8 == 0 {
                    0
                } else {
                    1
                };
                if bits.len() < need {
                    return Err(
                        ArrowWasmError::ArrayConstruction(ArrayConstructionError::NullBitmapTooShort),
                    );
                }
            },
            None => {},
        }
        match find_short_buffer(&data_type, &slots, &buffers, len, end) {
            Some(index) => {
                return Err(
                    ArrowWasmError::ArrayConstruction(ArrayConstructionError::BufferTooShort { index }),
                );
            },
            None => {},
        }
        Ok(ArrayData { data_type, len, offset, nulls, buffers, child_data })
    }
}

/// `2^k` for a bit position within a byte.
pub open spec fn bit_weight(k: nat) -> nat {
    if k == 0 {
        1
    } else if k == 1 {
        2
    } else if k == 2 {
        4
    } else if k == 3 {
        8
    } else if k == 4 {
        16
    } else if k == 5 {
        32
    } else if k == 6 {
        64
    } else {
        128
    }
}

/// Bit `i` of a bitmap, least significant bit first.
pub open spec fn bit_is_set(bits: Seq<u8>, i: nat) -> bool {
    (bits[(i / 8) as int] as nat / bit_weight(i % 8)) % 2 == 1
}

/// The number of clear bits among positions `start..end`.
pub open spec fn count_clear_bits(bits: Seq<u8>, start: nat, end: nat) -> nat
    decreases end,
{
    if end <= start {
        0
    } else {
        count_clear_bits(bits, start, (end - 1) as nat) + if bit_is_set(bits, (end - 1) as nat) {
            0nat
        } else {
            1nat
        }
    }
}

/// The number of null slots of a model.
pub open spec fn null_count_of(d: ArrayDataModel) -> nat {
    match d.nulls {
        None => 0,
        Some(bits) => count_clear_bits(bits, d.offset, d.offset + d.len),
    }
}

/// Whether slot `i` of a model is null.
pub open spec fn is_null_at(d: ArrayDataModel, i: nat) -> bool {
    match d.nulls {
        None => false,
        Some(bits) => !bit_is_set(bits, d.offset + i),
    }
}

fn bit_weight_of(k: usize) -> (r: u8)
    requires
        k < 8,
    ensures
        r as nat == bit_weight(k as nat),
        r > 0,
{
    match k {
        0 => 1,
        1 => 2,
        2 => 4,
        3 => 8,
        4 => 16,
        5 => 32,
        6 => 64,
        _ => 128,
    }
}

fn get_bit(bits: &Vec<u8>, i: usize) -> (r: bool)
    requires
        i / 8 < bits@.len(),
    ensures
        r == bit_is_set(bits@, i as nat),
{
    let w = bit_weight_of(i % 8);
    (bits[i / 8] / w) % 2 == 1
}

impl ArrayData {
    /// The logical type.
    pub fn data_type(&self) -> (r: &DataType)
        ensures
            r@ == self@.data_type,
    {
        &self.data_type
    }

    /// The number of slots. Like every accessor, it also makes known that
    /// the value satisfies the layout rules of its type.
    pub fn len(&self) -> (r: usize)
        ensures
            r == self@.len,
            layout_ok(self@),
    {
        proof {
            use_type_invariant(self);
            lemma_children_view_len(self.child_data@);
        }
        self.len
    }

    /// The first slot of the buffers that belongs to this array.
    pub fn offset(&self) -> (r: usize)
        ensures
            r == self@.offset,
    {
        self.offset
    }

    /// The null bitmap, if any.
    pub fn nulls(&self) -> (r: &Option<Vec<u8>>)
        ensures
            nulls_view(*r) == self@.nulls,
    {
        &self.nulls
    }

    /// The buffers, in the order that the type prescribes.
    pub fn buffers(&self) -> (r: &Vec<Buffer>)
        ensures
            buffers_view(r@) == self@.buffers,
    {
        &self.buffers
    }

    /// The child arrays.
    pub fn child_data(&self) -> (r: &Vec<ArrayData>)
        ensures
            children_view(r@) == self@.children,
            forall|i: int| 0 <= i < r@.len() ==> decreases_to!(*self => #[trigger] r@[i]),
    {
        proof {
            assert forall|i: int| 0 <= i < self.child_data@.len() implies decreases_to!(*self => #[trigger] self.child_data@[i]) by {
                assert(decreases_to!(*self => self.child_data));
                assert(decreases_to!(self.child_data => self.child_data@));
                assert(decreases_to!(self.child_data@ => self.child_data@[i]));
            }
        }
        &self.child_data
    }

    /// Whether slot `i` is null; without a bitmap no slot is.
    pub fn is_null(&self, i: usize) -> (r: bool)
        requires
            i < self@.len,
        ensures
            r == is_null_at(self@, i as nat),
    {
        proof {
            use_type_invariant(self);
        }
        match &self.nulls {
            None => false,
            Some(bits) => {
                assert((self.offset + i) / 8 < bits@.len()) by (nonlinear_arith)
                    requires
                        self.offset + i < self.offset + self.len,
                        bits@.len() >= (self.offset + self.len + 7) / 8,
                ;
                !get_bit(bits, self.offset + i)
            },
        }
    }

    /// The number of null slots.
    pub fn null_count(&self) -> (r: usize)
        ensures
            r == null_count_of(self@),
    {
        proof {
            use_type_invariant(self);
        }
        match &self.nulls {
            None => 0,
            Some(bits) => {
                let start = self.offset;
                let end = self.offset + self.len;
                let mut count: usize = 0;
                let mut i: usize = start;
                while i < end
                    invariant
                        start <= i <= end,
                        (end + 7) / 8 <= bits@.len(),
                        count == count_clear_bits(bits@, start as nat, i as nat),
                        count <= i - start,
                    decreases end - i,
                {
                    assert(i / 8 < bits@.len()) by (nonlinear_arith)
                        requires
                            i < end,
                            (end + 7) / 8 <= bits@.len(),
                    ;
                    if !get_bit(bits, i) {
                        count += 1;
                    }
                    i += 1;
                }
                count
            },
        }
    }
}

/// The bytes of slot `i` of a binary or string model: the values between two
/// consecutive offsets, when those offsets are in order and in range.
pub open spec fn binary_value_of(d: ArrayDataModel, i: nat) -> Option<Seq<u8>> {
    if d.buffers.len() == 2 {
        let bounds: Option<(int, int)> = match d.buffers[0] {
            BufferModel::Offsets32(o) => if d.offset + i + 1 < o.len() {
                Some((o[(d.offset + i) as int] as int, o[(d.offset + i + 1) as int] as int))
            } else {
                None
            },
            BufferModel::Offsets64(o) => if d.offset + i + 1 < o.len() {
                Some((o[(d.offset + i) as int] as int, o[(d.offset + i + 1) as int] as int))
            } else {
                None
            },
            _ => None,
        };
        match (bounds, d.buffers[1]) {
            (Some((s, e)), BufferModel::Bytes(v)) => if 0 <= s <= e <= v.len() {
                Some(v.subrange(s, e))
            } else {
                None
            },
            _ => None,
        }
    } else {
        None
    }
}

fn copy_range(v: &Vec<u8>, start: usize, end: usize) -> (r: Vec<u8>)
    requires
        start <= end <= v@.len(),
    ensures
        r@ == v@.subrange(start as int, end as int),
{
    let mut out: Vec<u8> = Vec::new();
    let mut i: usize = start;
    while i < end
        invariant
            start <= i <= end,
            end <= v@.len(),
            out@ == v@.subrange(start as int, i as int),
        decreases end - i,
    {
        out.push(v[i]);
        i += 1;
        assert(out@ =~= v@.subrange(start as int, i as int));
    }
    out
}

impl ArrayData {
    /// The bytes of slot `i` of a binary or string array; `None` for other
    /// types and for offsets out of order or out of range.
    pub fn binary_value(&self, i: usize) -> (r: Option<Vec<u8>>)
        requires
            i < self@.len,
        ensures
            match r {
                Some(v) => binary_value_of(self@, i as nat) == Some(v@),
                None => binary_value_of(self@, i as nat) is None,
            },
    {
        proof {
            use_type_invariant(self);
        }
        if self.buffers.len() != 2 {
            return None;
        }
        let ghost bv = buffers_view(self.buffers@);
        assert(bv[0] == self.buffers@[0]@);
        assert(bv[1] == self.buffers@[1]@);
        let k = self.offset + i;
        let (s, e): (i64, i64) = match &self.buffers[0] {
            Buffer::Offsets32(o) => if k + 1 < o.len() {
                (o[k] as i64, o[k + 1] as i64)
            } else {
                return None;
            },
            Buffer::Offsets64(o) => if k + 1 < o.len() {
                (o[k], o[k + 1])
            } else {
                return None;
            },
            _ => {
                return None;
            },
        };
        match &self.buffers[1] {
            Buffer::Bytes(v) => {
                if 0 <= s && s <= e && e as u64 <= v.len() as u64 {
                    Some(copy_range(v, s as usize, e as usize))
                } else {
                    None
                }
            },
            _ => None,
        }
    }
}

proof fn lemma_short_buffer_shrink(
    t: LogicalType,
    slots: Seq<BufferSlot>,
    bufs: Seq<BufferModel>,
    len: nat,
    end: nat,
    len2: nat,
    end2: nat,
)
    requires
        first_short_buffer(t, slots, bufs, len, end) is None,
        end2 <= end,
        len2 > 0 ==> len > 0,
    ensures
        first_short_buffer(t, slots, bufs, len2, end2) is None,
    decreases slots.len(),
{
    if slots.len() > 0 {
        lemma_short_buffer_shrink(t, slots.drop_last(), bufs, len, end, len2, end2);
        assert(bytes_for_bits(end2) <= bytes_for_bits(end));
    }
}

impl ArrayData {
    /// The slots `offset..offset + length` of this array, sharing its buffers:
    /// only the offset and the length change.
    pub fn slice(self, offset: usize, length: usize) -> (r: ArrayData)
        requires
            offset + length <= self@.len,
        ensures
            r@ == (ArrayDataModel { offset: (self@.offset + offset) as nat, len: length as nat, ..self@ }),
    {
        proof {
            use_type_invariant(&self);
        }
        let ArrayData { data_type, len, offset: old_offset, nulls, buffers, child_data } = self;
        proof {
            let t = data_type@;
            let slots = buffer_slots(t).unwrap();
            lemma_short_buffer_shrink(
                t,
                slots,
                buffers_view(buffers@),
                len as nat,
                (old_offset + len) as nat,
                length as nat,
                (old_offset + offset + length) as nat,
            );
            assert(bytes_for_bits((old_offset + offset + length) as nat) <= bytes_for_bits(
                (old_offset + len) as nat,
            ));
        }
        ArrayData { data_type, len: length, offset: old_offset + offset, nulls, buffers, child_data }
    }

    /// Splits array data into its type, length, null bitmap, offset, buffers
    /// and children.
    pub fn into_parts(self) -> (r: (DataType, usize, Option<Vec<u8>>, usize, Vec<Buffer>, Vec<ArrayData>))
        ensures
            r.0@ == self@.data_type,
            r.1 == self@.len,
            nulls_view(r.2) == self@.nulls,
            r.3 == self@.offset,
            buffers_view(r.4@) == self@.buffers,
            children_view(r.5@) == self@.children,
    {
        (self.data_type, self.len, self.nulls, self.offset, self.buffers, self.child_data)
    }
}

impl ArrayData {
    /// A struct node over `children`, one per field, with no buffers and no
    /// null bitmap.
    pub fn new_struct(fields: Vec<crate::datatype::Field>, len: usize, children: Vec<ArrayData>) -> (r:
        ArrayData)
        requires
            children@.len() == fields@.len(),
            len < usize::MAX,
        ensures
            r@ == (ArrayDataModel {
                data_type: LogicalType::Struct(crate::datatype::fields_view(fields@)),
                len: len as nat,
                offset: 0,
                nulls: None,
                buffers: Seq::empty(),
                children: children_view(children@),
            }),
    {
        let buffers: Vec<Buffer> = Vec::new();
        let data_type = DataType::Struct(fields);
        proof {
            crate::datatype::lemma_fields_view_len(fields@);
            assert(buffers_view(buffers@) =~= Seq::empty());
            let slots = buffer_slots(data_type@).unwrap();
            assert(slots =~= Seq::<BufferSlot>::empty());
        }
        ArrayData { data_type, len, offset: 0, nulls: None, buffers, child_data: children }
    }
}

/// In a valid model of a fixed-width primitive type, the one values buffer
/// covers every slot of the array.
pub proof fn lemma_primitive_buffer_covers(d: ArrayDataModel)
    requires
        layout_ok(d),
        d.buffers.len() == 1,
        value_layout(d.data_type) is Some,
        offset_layout(d.data_type) is None,
        !(d.data_type is Boolean),
        !(d.data_type is FixedSizeBinary),
    ensures
        d.buffers[0].len() >= d.offset + d.len,
{
    let slots = buffer_slots(d.data_type).unwrap();
    assert(slots =~= seq![BufferSlot::Values(value_layout(d.data_type).unwrap())]);
    assert(slots.drop_last() =~= Seq::<BufferSlot>::empty());
}

pub proof fn lemma_children_view_index(cs: Seq<ArrayData>)
    ensures
        children_view(cs).len() == cs.len(),
        forall|i: int| 0 <= i < cs.len() ==> #[trigger] children_view(cs)[i] == cs[i]@,
    decreases cs.len(),
{
    lemma_children_view_len(cs);
    if cs.len() > 0 {
        let p = cs.subrange(0, cs.len() - 1);
        lemma_children_view_index(p);
        lemma_children_view_push(p, cs.last());
        assert(p.push(cs.last()) =~= cs);
        assert forall|i: int| 0 <= i < cs.len() implies #[trigger] children_view(cs)[i]
            == cs[i]@ by {
            if i < cs.len() - 1 {
                assert(p[i] == cs[i]);
            }
        }
    }
}

/// In a valid model every buffer has the element kind of its slot.
pub proof fn lemma_kinds_match(slots: Seq<BufferSlot>, bufs: Seq<BufferModel>)
    requires
        first_kind_mismatch(slots, bufs) is None,
    ensures
        forall|k: int| 0 <= k < slots.len() ==> slot_matches(#[trigger] slots[k], bufs[k]),
    decreases slots.len(),
{
    if slots.len() > 0 {
        lemma_kinds_match(slots.drop_last(), bufs);
        assert forall|k: int| 0 <= k < slots.len() implies slot_matches(#[trigger] slots[k], bufs[k]) by {
            if k < slots.len() - 1 {
                assert(slots.drop_last()[k] == slots[k]);
            }
        }
    }
}

/// A copy of a byte vector.
pub fn copy_bytes(v: &Vec<u8>) -> (r: Vec<u8>)
    ensures
        r@ == v@,
{
    let n = v.len();
    let r = copy_range(v, 0, n);
    assert(v@.subrange(0, n as int) =~= v@);
    r
}

} // verus!
