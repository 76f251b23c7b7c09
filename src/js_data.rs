//! Host-side array descriptors and their import into native array data.
use vstd::prelude::*;

use crate::array_data::{
    buffer_slots, buffers_view, children_view, construction_error, has_values_buffer, lemma_children_view_push,
    ArrayData, ArrayDataModel,
};
use crate::buffer::{
    decode_offset_bytes, decode_offsets, decode_value_bytes, decode_values, offset_layout,
    offset_layout_of, offset_width, offset_width_of, value_layout, value_layout_of, value_width,
    value_width_of, Buffer, BufferModel,
};
use crate::datatype::{DataType, LogicalType};
use crate::error::{view_result, ArrayConstructionError, ArrowWasmError, BufferLayoutError};
use crate::js_type::{decode_type, import_data_type, JSDataType};

verus! {

/// A host typed-array view: `byte_length` bytes from `byte_offset` on in the
/// backing `buffer`. The offset need not be a multiple of any element width.
#[derive(Debug)]
pub struct TypedArrayLike {
    pub buffer: Vec<u8>,
    pub byte_offset: usize,
    pub byte_length: usize,
}

/// A host array descriptor.
#[derive(Debug)]
pub struct JSData {
    pub data_type: JSDataType,
    pub length: usize,
    pub offset: usize,
    pub stride: usize,
    pub children: Vec<JSData>,
    pub values: TypedArrayLike,
    pub type_ids: TypedArrayLike,
    pub null_bitmap: Option<TypedArrayLike>,
    pub value_offsets: TypedArrayLike,
}

// ---------------------------------------------------------------------------
// The import, as mathematics.

pub open spec fn layout_error<T>(e: BufferLayoutError) -> Result<T, ArrowWasmError> {
    Err(ArrowWasmError::BufferLayout(e))
}

/// The bytes that a view shows.
pub open spec fn view_bytes(v: TypedArrayLike) -> Result<Seq<u8>, ArrowWasmError> {
    if v.byte_offset + v.byte_length <= v.buffer@.len() {
        Ok(v.buffer@.subrange(v.byte_offset as int, v.byte_offset + v.byte_length))
    } else {
        layout_error(BufferLayoutError::ViewOutOfBounds)
    }
}

/// The null bitmap of a descriptor; an empty bitmap means that no slot is null.
pub open spec fn null_bitmap_of(d: JSData) -> Result<Option<Seq<u8>>, ArrowWasmError> {
    match d.null_bitmap {
        None => Ok(None),
        Some(v) => match view_bytes(v) {
            Err(e) => Err(e),
            Ok(b) => if b.len() == 0 {
                Ok(None)
            } else {
                Ok(Some(b))
            },
        },
    }
}

/// The values buffer of type `t` decoded from view `v`.
pub open spec fn values_of(t: LogicalType, v: TypedArrayLike) -> Result<BufferModel, ArrowWasmError> {
    match value_layout(t) {
        None => layout_error(BufferLayoutError::NoValues),
        Some(l) => match view_bytes(v) {
            Err(e) => Err(e),
            Ok(b) => if b.len() % value_width(l) != 0 {
                layout_error(
                    BufferLayoutError::NotDivisible {
                        byte_length: b.len() as usize,
                        width: value_width(l) as usize,
                    },
                )
            } else {
                Ok(decode_values(l, b))
            },
        },
    }
}

/// The offsets buffer of type `t` decoded from view `v`.
pub open spec fn offsets_of(t: LogicalType, v: TypedArrayLike) -> Result<BufferModel, ArrowWasmError> {
    match offset_layout(t) {
        None => layout_error(BufferLayoutError::NoOffsets),
        Some(l) => match view_bytes(v) {
            Err(e) => Err(e),
            Ok(b) => if b.len() % offset_width(l) != 0 {
                layout_error(
                    BufferLayoutError::NotDivisible {
                        byte_length: b.len() as usize,
                        width: offset_width(l) as usize,
                    },
                )
            } else {
                Ok(decode_offsets(l, b))
            },
        },
    }
}

/// The buffers of a node of type `t`: offsets first, then values, each only
/// where the type has it. Unions and run-end encoded arrays have no import.
pub open spec fn buffers_of(t: LogicalType, d: JSData) -> Result<Seq<BufferModel>, ArrowWasmError> {
    if t is Union || t is RunEndEncoded {
        Err(ArrowWasmError::ArrayConstruction(ArrayConstructionError::UnsupportedType))
    } else {
        let offsets = if offset_layout(t) is Some {
            match offsets_of(t, d.value_offsets) {
                Ok(b) => Ok(seq![b]),
                Err(e) => Err(e),
            }
        } else {
            Ok(Seq::<BufferModel>::empty())
        };
        match offsets {
            Err(e) => Err(e),
            Ok(o) => if has_values_buffer(t) {
                match values_of(t, d.values) {
                    Ok(b) => Ok(o.push(b)),
                    Err(e) => Err(e),
                }
            } else {
                Ok(o)
            },
        }
    }
}

/// Children first, in order, then the type, the buffers, the null bitmap and
/// the layout check; the first failure is the result.
pub open spec fn import_data_spec(d: JSData) -> Result<ArrayDataModel, ArrowWasmError>
    decreases d, 1int,
{
    match import_children_spec(d.children@) {
        Err(e) => Err(e),
        Ok(children) => match decode_type(d.data_type) {
            Err(e) => Err(e),
            Ok(t) => match buffers_of(t, d) {
                Err(e) => Err(e),
                Ok(bufs) => match null_bitmap_of(d) {
                    Err(e) => Err(e),
                    Ok(nulls) => match construction_error(
                        t,
                        d.length as nat,
                        d.offset as nat,
                        nulls,
                        bufs,
                        children.len(),
                    ) {
                        Some(e) => Err(ArrowWasmError::ArrayConstruction(e)),
                        None => Ok(
                            ArrayDataModel {
                                data_type: t,
                                len: d.length as nat,
                                offset: d.offset as nat,
                                nulls,
                                buffers: bufs,
                                children,
                            },
                        ),
                    },
                },
            },
        },
    }
}

/// Child descriptors imported in order; the first failure is the result.
pub open spec fn import_children_spec(cs: Seq<JSData>) -> Result<Seq<ArrayDataModel>, ArrowWasmError>
    decreases cs, 0int,
{
    if cs.len() == 0 {
        Ok(Seq::empty())
    } else {
        match import_children_spec(cs.subrange(0, cs.len() - 1)) {
            Err(e) => Err(e),
            Ok(prev) => match import_data_spec(cs[cs.len() - 1]) {
                Err(e) => Err(e),
                Ok(c) => Ok(prev.push(c)),
            },
        }
    }
}

// ---------------------------------------------------------------------------
// The import, as code.

/// Copies the bytes that a view shows into owned memory.
pub fn copy_typed_array_like(arr: &TypedArrayLike) -> (r: Result<Vec<u8>, ArrowWasmError>)
    ensures
        view_result(r) == view_bytes(*arr),
{
    let n = arr.buffer.len();
    if arr.byte_offset > n || arr.byte_length > n - arr.byte_offset {
        return Err(ArrowWasmError::BufferLayout(BufferLayoutError::ViewOutOfBounds));
    }
    let start = arr.byte_offset;
    let end = arr.byte_offset + arr.byte_length;
    let mut out: Vec<u8> = Vec::new();
    let mut i: usize = start;
    while i < end
        invariant
            start <= i <= end,
            end <= arr.buffer@.len(),
            out@ == arr.buffer@.subrange(start as int, i as int),
        decreases end - i,
    {
        out.push(arr.buffer[i]);
        i += 1;
        assert(out@ =~= arr.buffer@.subrange(start as int, i as int));
    }
    Ok(out)
}

/// The null bitmap of a descriptor, copied; a present but empty bitmap comes
/// back as no bitmap, since it means that no slot is null.
pub fn copy_null_bitmap(js_data: &JSData) -> (r: Result<Option<Vec<u8>>, ArrowWasmError>)
    ensures
        match r {
            Ok(Some(b)) => null_bitmap_of(*js_data) == Ok::<Option<Seq<u8>>, ArrowWasmError>(
                Some(b@),
            ) && b@.len() > 0,
            Ok(None) => null_bitmap_of(*js_data) == Ok::<Option<Seq<u8>>, ArrowWasmError>(None),
            Err(e) => null_bitmap_of(*js_data) == Err::<Option<Seq<u8>>, ArrowWasmError>(e),
        },
{
    match &js_data.null_bitmap {
        None => Ok(None),
        Some(view) => match copy_typed_array_like(view) {
            Err(e) => Err(e),
            Ok(bytes) => if bytes.len() == 0 {
                Ok(None)
            } else {
                Ok(Some(bytes))
            },
        },
    }
}

/// The values buffer of a descriptor, decoded for type `data_type`: bytes are
/// read little-endian whatever their alignment, and a byte length that is not
/// a multiple of the element width is an error.
pub fn import_values(js_data: &JSData, data_type: &DataType) -> (r: Result<Buffer, ArrowWasmError>)
    ensures
        view_result(r) == values_of(data_type@, js_data.values),
{
    let layout = match value_layout_of(data_type) {
        Some(l) => l,
        None => {
            return Err(ArrowWasmError::BufferLayout(BufferLayoutError::NoValues));
        },
    };
    let bytes = match copy_typed_array_like(&js_data.values) {
        Ok(b) => b,
        Err(e) => return Err(e),
    };
    let width = value_width_of(layout);
    if bytes.len() % width != 0 {
        return Err(
            ArrowWasmError::BufferLayout(
                BufferLayoutError::NotDivisible { byte_length: bytes.len(), width },
            ),
        );
    }
    Ok(decode_value_bytes(layout, bytes))
}

/// The offsets buffer of a descriptor, decoded for type `data_type`: 4-byte
/// offsets for binary, string, list and map types, 8-byte ones for their large
/// variants, an error for every other type.
pub fn import_offsets(js_data: &JSData, data_type: &DataType) -> (r: Result<Buffer, ArrowWasmError>)
    ensures
        view_result(r) == offsets_of(data_type@, js_data.value_offsets),
{
    let layout = match offset_layout_of(data_type) {
        Some(l) => l,
        None => {
            return Err(ArrowWasmError::BufferLayout(BufferLayoutError::NoOffsets));
        },
    };
    let bytes = match copy_typed_array_like(&js_data.value_offsets) {
        Ok(b) => b,
        Err(e) => return Err(e),
    };
    let width = offset_width_of(layout);
    if bytes.len() % width != 0 {
        return Err(
            ArrowWasmError::BufferLayout(
                BufferLayoutError::NotDivisible { byte_length: bytes.len(), width },
            ),
        );
    }
    Ok(decode_offset_bytes(layout, &bytes))
}

/// The buffers that a node of type `data_type` needs, read from a descriptor.
fn import_buffers(js_data: &JSData, data_type: &DataType) -> (r: Result<Vec<Buffer>, ArrowWasmError>)
    ensures
        match r {
            Ok(v) => buffers_of(data_type@, *js_data) == Ok::<Seq<BufferModel>, ArrowWasmError>(
                buffers_view(v@),
            ),
            Err(e) => buffers_of(data_type@, *js_data) == Err::<Seq<BufferModel>, ArrowWasmError>(
                e,
            ),
        },
{
    match data_type {
        DataType::Union(_, _) | DataType::RunEndEncoded(_, _) => {
            return Err(ArrowWasmError::ArrayConstruction(ArrayConstructionError::UnsupportedType));
        },
        _ => {},
    }
    let mut buffers: Vec<Buffer> = Vec::new();
    if offset_layout_of(data_type).is_some() {
        match import_offsets(js_data, data_type) {
            Ok(b) => buffers.push(b),
            Err(e) => return Err(e),
        }
    }
    let ghost after_offsets = buffers_view(buffers@);
    let fixed_size_binary = match data_type {
        DataType::FixedSizeBinary(_) => true,
        _ => false,
    };
    if value_layout_of(data_type).is_some() && !fixed_size_binary {
        match import_values(js_data, data_type) {
            Ok(b) => buffers.push(b),
            Err(e) => return Err(e),
        }
        assert(buffers_view(buffers@) =~= after_offsets.push(buffers@.last()@));
    }
    if offset_layout_of(data_type).is_some() {
        assert(after_offsets =~= seq![buffers@[0]@]);
    } else {
        assert(after_offsets =~= Seq::<BufferModel>::empty());
    }
    Ok(buffers)
}

proof fn lemma_import_children_prefix_err(cs: Seq<JSData>, i: int)
    requires
        0 <= i <= cs.len(),
        import_children_spec(cs.subrange(0, i)) is Err,
    ensures
        import_children_spec(cs) == import_children_spec(cs.subrange(0, i)),
    decreases cs.len() - i,
{
    if i < cs.len() {
        let next = cs.subrange(0, i + 1);
        assert(next.subrange(0, next.len() - 1) =~= cs.subrange(0, i));
        lemma_import_children_prefix_err(cs, i + 1);
    } else {
        assert(cs.subrange(0, i) =~= cs);
    }
}

fn import_children(children: &Vec<JSData>) -> (r: Result<Vec<ArrayData>, ArrowWasmError>)
    ensures
        match r {
            Ok(v) => import_children_spec(children@) == Ok::<
                Seq<ArrayDataModel>,
                ArrowWasmError,
            >(children_view(v@)),
            Err(e) => import_children_spec(children@) == Err::<
                Seq<ArrayDataModel>,
                ArrowWasmError,
            >(e),
        },
    decreases children, 0int,
{
    let mut out: Vec<ArrayData> = Vec::new();
    proof {
        crate::array_data::lemma_children_view_empty();
        assert(children@.subrange(0, 0) =~= Seq::<JSData>::empty());
    }
    let mut i: usize = 0;
    while i < children.len()
        invariant
            i <= children@.len(),
            import_children_spec(children@.subrange(0, i as int)) == Ok::<
                Seq<ArrayDataModel>,
                ArrowWasmError,
            >(children_view(out@)),
        decreases children@.len() - i,
    {
        let ghost prefix = children@.subrange(0, i as int + 1);
        assert(prefix.subrange(0, prefix.len() - 1) =~= children@.subrange(0, i as int));
        assert(prefix[prefix.len() - 1] == children@[i as int]);
        proof {
            assert(decreases_to!(children => children@[i as int]));
        }
        match import_data(&children[i]) {
            Ok(c) => {
                proof {
                    lemma_children_view_push(out@, c);
                }
                out.push(c);
            },
            Err(e) => {
                proof {
                    lemma_import_children_prefix_err(children@, i as int + 1);
                }
                return Err(e);
            },
        }
        i += 1;
    }
    assert(children@.subrange(0, i as int) =~= children@);
    Ok(out)
}

/// Imports a host array descriptor: its children first, then its type, its
/// buffers as the type prescribes them, and its null bitmap, checked against
/// the layout of the type.
pub fn import_data(js_data: &JSData) -> (r: Result<ArrayData, ArrowWasmError>)
    ensures
        view_result(r) == import_data_spec(*js_data),
    decreases js_data, 1int,
{
    let child_data = match import_children(&js_data.children) {
        Ok(c) => c,
        Err(e) => return Err(e),
    };
    let data_type = match import_data_type(&js_data.data_type) {
        Ok(t) => t,
        Err(e) => return Err(e),
    };
    let buffers = match import_buffers(js_data, &data_type) {
        Ok(b) => b,
        Err(e) => return Err(e),
    };
    let nulls = match copy_null_bitmap(js_data) {
        Ok(n) => n,
        Err(e) => return Err(e),
    };
    proof {
        crate::array_data::lemma_children_view_len(child_data@);
    }
    ArrayData::try_new(data_type, js_data.length, nulls, js_data.offset, buffers, child_data)
}

/// A values buffer whose byte length is not a multiple of the element width
/// of its type is a layout error, never a truncated buffer.
pub proof fn lemma_indivisible_values_rejected(t: LogicalType, v: TypedArrayLike)
    requires
        value_layout(t) is Some,
        view_bytes(v) is Ok,
        view_bytes(v).unwrap().len() % value_width(value_layout(t).unwrap()) != 0,
    ensures
        values_of(t, v) == layout_error::<BufferModel>(
            BufferLayoutError::NotDivisible {
                byte_length: view_bytes(v).unwrap().len() as usize,
                width: value_width(value_layout(t).unwrap()) as usize,
            },
        ),
{
}

/// Decoded values depend on the bytes that a view shows and not on where the
/// view starts in its buffer: two views of the same bytes, aligned or not,
/// decode alike.
pub proof fn lemma_values_ignore_alignment(t: LogicalType, v: TypedArrayLike, w: TypedArrayLike)
    requires
        view_bytes(v) is Ok,
        view_bytes(v) == view_bytes(w),
    ensures
        values_of(t, v) == values_of(t, w),
        offsets_of(t, v) == offsets_of(t, w),
{
}

/// A present but empty null bitmap imports as no bitmap, so that no slot of
/// the imported array is null.
pub proof fn lemma_empty_bitmap_is_absent(d: JSData)
    requires
        d.null_bitmap is Some,
        view_bytes(d.null_bitmap.unwrap()) == Ok::<Seq<u8>, ArrowWasmError>(Seq::empty()),
        import_data_spec(d) is Ok,
    ensures
        import_data_spec(d).unwrap().nulls is None,
        crate::array_data::null_count_of(import_data_spec(d).unwrap()) == 0,
{
}

/// Imported struct, fixed-size list and fixed-size binary nodes hold no
/// buffer of their own: their data lives in their children, or is absent.
pub proof fn lemma_nested_nodes_have_no_buffers(d: JSData)
    requires
        import_data_spec(d) is Ok,
        import_data_spec(d).unwrap().data_type is Struct
            || import_data_spec(d).unwrap().data_type is FixedSizeList
            || import_data_spec(d).unwrap().data_type is FixedSizeBinary,
    ensures
        import_data_spec(d).unwrap().buffers.len() == 0,
{
    let m = import_data_spec(d).unwrap();
    let t = m.data_type;
    assert(buffer_slots(t).unwrap() =~= Seq::<crate::array_data::BufferSlot>::empty());
}

} // verus!
