//! Native types as host descriptors: the inverse of the type decoder, for
//! every type that a host descriptor can express.
use vstd::prelude::*;

use crate::array_data::{
    buffer_slots, children_view, first_kind_mismatch, has_values_buffer, lemma_children_view_index,
    lemma_kinds_match, layout_ok, ArrayData, ArrayDataModel, BufferSlot,
};
use crate::buffer::{encode_buffer, encodes, offset_layout, value_layout, BufferModel};
use crate::js_data::{import_children_spec, import_data_spec, JSData, TypedArrayLike};
use crate::datatype::{
    field_view, fields_view, lemma_fields_view_index, lemma_fields_view_len, DataType, Field,
    FieldModel, LogicalType, TimeUnit,
};
use crate::error::ArrowWasmError;
use crate::js_type::{
    copy_metadata, decode_field, decode_fields, decode_type, DateUnit, JSDataType, JSField,
    Precision,
};

verus! {

/// Whether a host descriptor can express a type: the large variants, unions,
/// run-end encoding and time types of a width that does not fit their unit
/// have no host form here.
pub open spec fn expressible_type(t: LogicalType) -> bool
    decreases t,
{
    match t {
        LogicalType::LargeBinary | LogicalType::LargeUtf8 | LogicalType::LargeList(_)
        | LogicalType::Union(_, _) | LogicalType::RunEndEncoded(_, _) => false,
        LogicalType::Time32(u) => u is Second || u is Millisecond,
        LogicalType::Time64(u) => u is Microsecond || u is Nanosecond,
        LogicalType::List(f) => expressible_type(f.data_type),
        LogicalType::FixedSizeList(f, _) => expressible_type(f.data_type),
        LogicalType::Map_(f, _) => expressible_type(f.data_type),
        LogicalType::Struct(fs) => expressible_fields(fs),
        _ => true,
    }
}

/// Whether a host descriptor can express every field of a sequence.
pub open spec fn expressible_fields(fs: Seq<FieldModel>) -> bool
    decreases fs,
{
    if fs.len() == 0 {
        true
    } else {
        expressible_fields(fs.subrange(0, fs.len() - 1)) && expressible_type(
            fs[fs.len() - 1].data_type,
        )
    }
}

/// The host descriptor of a field, if its type has one; decoding it gives the
/// field back.
pub fn export_field(f: &Field) -> (r: Option<JSField>)
    ensures
        r is Some <==> expressible_type(f@.data_type),
        r matches Some(j) ==> decode_field(j) == Ok::<FieldModel, ArrowWasmError>(f@),
    decreases f, 2int,
{
    match export_data_type(&f.data_type) {
        None => None,
        Some(t) => Some(
            JSField {
                name: f.name.clone(),
                data_type: t,
                nullable: f.nullable,
                metadata: copy_metadata(&f.metadata),
            },
        ),
    }
}

/// The host descriptors of fields, if every type has one; decoding them gives
/// the fields back.
pub fn export_fields(fs: &Vec<Field>) -> (r: Option<Vec<JSField>>)
    ensures
        r is Some <==> expressible_fields(fields_view(fs@)),
        r matches Some(js) ==> decode_fields(js@) == Ok::<Seq<FieldModel>, ArrowWasmError>(
            fields_view(fs@),
        ),
    decreases fs, 0int,
{
    proof {
        lemma_fields_view_len(fs@);
        lemma_fields_view_index(fs@);
    }
    let ghost model = fields_view(fs@);
    let mut out: Vec<JSField> = Vec::new();
    let mut i: usize = 0;
    assert(model.subrange(0, 0) =~= Seq::<FieldModel>::empty());
    assert(out@ =~= Seq::<JSField>::empty());
    while i < fs.len()
        invariant
            i <= fs@.len(),
            model == fields_view(fs@),
            model.len() == fs@.len(),
            forall|k: int| 0 <= k < fs@.len() ==> #[trigger] model[k] == field_view(fs@[k]),
            expressible_fields(model.subrange(0, i as int)),
            decode_fields(out@) == Ok::<Seq<FieldModel>, ArrowWasmError>(
                model.subrange(0, i as int),
            ),
        decreases fs@.len() - i,
    {
        proof {
            assert(decreases_to!(fs => fs@[i as int]));
        }
        let ghost prefix = model.subrange(0, i as int + 1);
        assert(prefix.subrange(0, prefix.len() - 1) =~= model.subrange(0, i as int));
        match export_field(&fs[i]) {
            None => {
                proof {
                    lemma_expressible_prefix(model, i as int + 1);
                }
                return None;
            },
            Some(j) => {
                let ghost before = out@;
                out.push(j);
                assert(out@.subrange(0, out@.len() - 1) =~= before);
                assert(model.subrange(0, i as int + 1) =~= model.subrange(0, i as int).push(
                    model[i as int],
                ));
            },
        }
        i += 1;
    }
    assert(model.subrange(0, i as int) =~= model);
    Some(out)
}

proof fn lemma_expressible_prefix(fs: Seq<FieldModel>, i: int)
    requires
        0 <= i <= fs.len(),
        !expressible_fields(fs.subrange(0, i)),
    ensures
        !expressible_fields(fs),
    decreases fs.len() - i,
{
    if i < fs.len() {
        assert(fs.subrange(0, i + 1).subrange(0, i) =~= fs.subrange(0, i));
        lemma_expressible_prefix(fs, i + 1);
    } else {
        assert(fs.subrange(0, i) =~= fs);
    }
}

fn export_single_child(f: &Field) -> (r: Option<Vec<JSField>>)
    ensures
        r is Some <==> expressible_type(f@.data_type),
        r matches Some(cs) ==> cs@.len() == 1 && decode_field(cs@[0]) == Ok::<
            FieldModel,
            ArrowWasmError,
        >(f@),
    decreases f, 3int,
{
    match export_field(f) {
        None => None,
        Some(j) => {
            let mut v: Vec<JSField> = Vec::new();
            v.push(j);
            Some(v)
        },
    }
}

/// The host descriptor of a type, if it has one; decoding it gives the type
/// back.
pub fn export_data_type(t: &DataType) -> (r: Option<JSDataType>)
    ensures
        r is Some <==> expressible_type(t@),
        r matches Some(j) ==> decode_type(j) == Ok::<LogicalType, ArrowWasmError>(t@),
    decreases t, 1int,
{
    match t {
        DataType::Null => Some(JSDataType::Null),
        DataType::Boolean => Some(JSDataType::Bool),
        DataType::Int8 => Some(JSDataType::Int { bit_width: 8, is_signed: true }),
        DataType::Int16 => Some(JSDataType::Int { bit_width: 16, is_signed: true }),
        DataType::Int32 => Some(JSDataType::Int { bit_width: 32, is_signed: true }),
        DataType::Int64 => Some(JSDataType::Int { bit_width: 64, is_signed: true }),
        DataType::UInt8 => Some(JSDataType::Int { bit_width: 8, is_signed: false }),
        DataType::UInt16 => Some(JSDataType::Int { bit_width: 16, is_signed: false }),
        DataType::UInt32 => Some(JSDataType::Int { bit_width: 32, is_signed: false }),
        DataType::UInt64 => Some(JSDataType::Int { bit_width: 64, is_signed: false }),
        DataType::Float16 => Some(JSDataType::Float { precision: Precision::Half }),
        DataType::Float32 => Some(JSDataType::Float { precision: Precision::Single }),
        DataType::Float64 => Some(JSDataType::Float { precision: Precision::Double }),
        DataType::Timestamp(u, tz) => Some(
            JSDataType::Timestamp {
                unit: *u,
                timezone: match tz {
                    Some(s) => Some(s.clone()),
                    None => None,
                },
            },
        ),
        DataType::Date32 => Some(JSDataType::Date { unit: DateUnit::Day }),
        DataType::Date64 => Some(JSDataType::Date { unit: DateUnit::Millisecond }),
        DataType::Time32(u) => match u {
            TimeUnit::Second | TimeUnit::Millisecond => Some(JSDataType::Time { unit: *u }),
            _ => None,
        },
        DataType::Time64(u) => match u {
            TimeUnit::Microsecond | TimeUnit::Nanosecond => Some(JSDataType::Time { unit: *u }),
            _ => None,
        },
        DataType::Duration(u) => Some(JSDataType::Duration { unit: *u }),
        DataType::Interval(u) => Some(JSDataType::Interval { unit: *u }),
        DataType::Binary => Some(JSDataType::Binary),
        DataType::FixedSizeBinary(w) => Some(JSDataType::FixedSizeBinary { byte_width: *w }),
        DataType::Utf8 => Some(JSDataType::Utf8),
        DataType::List(f) => match export_single_child(f) {
            Some(children) => Some(JSDataType::List { children }),
            None => None,
        },
        DataType::FixedSizeList(f, n) => match export_single_child(f) {
            Some(children) => Some(JSDataType::FixedSizeList { list_size: *n, children }),
            None => None,
        },
        DataType::Map_(f, sorted) => match export_single_child(f) {
            Some(children) => Some(JSDataType::Map_ { keys_sorted: *sorted, children }),
            None => None,
        },
        DataType::Struct(fs) => match export_fields(fs) {
            Some(children) => Some(JSDataType::Struct { children }),
            None => None,
        },
        DataType::Decimal128(p, s) => Some(
            JSDataType::Decimal { bit_width: 128, precision: *p, scale: *s },
        ),
        DataType::Decimal256(p, s) => Some(
            JSDataType::Decimal { bit_width: 256, precision: *p, scale: *s },
        ),
        DataType::LargeBinary | DataType::LargeUtf8 | DataType::LargeList(_) | DataType::Union(
            _,
            _,
        ) | DataType::RunEndEncoded(_, _) => None,
    }
}

/// Whether array data has a host descriptor: its type and its children's
/// have one, and a null bitmap, if present, is not empty (an empty one reads
/// back as none).
pub open spec fn exportable(d: ArrayDataModel) -> bool
    decreases d, 1int,
{
    expressible_type(d.data_type) && d.nulls != Some(Seq::<u8>::empty()) && exportable_children(
        d.children,
    )
}

/// Whether every array of a sequence has a host descriptor.
pub open spec fn exportable_children(cs: Seq<ArrayDataModel>) -> bool
    decreases cs, 0int,
{
    if cs.len() == 0 {
        true
    } else {
        exportable_children(cs.subrange(0, cs.len() - 1)) && exportable(cs[cs.len() - 1])
    }
}

proof fn lemma_exportable_children_prefix(cs: Seq<ArrayDataModel>, i: int)
    requires
        0 <= i <= cs.len(),
        !exportable_children(cs.subrange(0, i)),
    ensures
        !exportable_children(cs),
    decreases cs.len() - i,
{
    if i < cs.len() {
        assert(cs.subrange(0, i + 1).subrange(0, i) =~= cs.subrange(0, i));
        lemma_exportable_children_prefix(cs, i + 1);
    } else {
        assert(cs.subrange(0, i) =~= cs);
    }
}

fn whole_view(bytes: Vec<u8>) -> (r: TypedArrayLike)
    ensures
        crate::js_data::view_bytes(r) == Ok::<Seq<u8>, ArrowWasmError>(bytes@),
        r.buffer@ == bytes@,
{
    let n = bytes.len();
    let r = TypedArrayLike { buffer: bytes, byte_offset: 0, byte_length: n };
    assert(r.buffer@.subrange(0, n as int) =~= r.buffer@);
    r
}

fn export_children(d: &ArrayData) -> (r: Option<Vec<JSData>>)
    ensures
        r is Some <==> exportable_children(d@.children),
        r matches Some(js) ==> import_children_spec(js@) == Ok::<
            Seq<ArrayDataModel>,
            ArrowWasmError,
        >(d@.children),
    decreases d, 0int,
{
    let cs = d.child_data();
    proof {
        lemma_children_view_index(cs@);
    }
    let ghost model = d@.children;
    let mut out: Vec<JSData> = Vec::new();
    let mut i: usize = 0;
    assert(model.subrange(0, 0) =~= Seq::<ArrayDataModel>::empty());
    assert(out@ =~= Seq::<JSData>::empty());
    while i < cs.len()
        invariant
            i <= cs@.len(),
            model == children_view(cs@),
            model == d@.children,
            model.len() == cs@.len(),
            forall|k: int| 0 <= k < cs@.len() ==> #[trigger] model[k] == cs@[k]@,
            forall|k: int| 0 <= k < cs@.len() ==> decreases_to!(*d => #[trigger] cs@[k]),
            exportable_children(model.subrange(0, i as int)),
            import_children_spec(out@) == Ok::<Seq<ArrayDataModel>, ArrowWasmError>(
                model.subrange(0, i as int),
            ),
        decreases cs@.len() - i,
    {
        let ghost prefix = model.subrange(0, i as int + 1);
        assert(prefix.subrange(0, prefix.len() - 1) =~= model.subrange(0, i as int));
        assert(decreases_to!(*d => cs@[i as int]));
        match export_data(&cs[i]) {
            None => {
                proof {
                    assert(!exportable(cs@[i as int]@));
                    assert(!exportable(model[i as int]));
                    assert(prefix[prefix.len() - 1] == model[i as int]);
                    assert(!exportable_children(prefix));
                    lemma_exportable_children_prefix(model, i as int + 1);
                }
                return None;
            },
            Some(j) => {
                let ghost before = out@;
                out.push(j);
                assert(out@.subrange(0, out@.len() - 1) =~= before);
                assert(model.subrange(0, i as int + 1) =~= model.subrange(0, i as int).push(
                    model[i as int],
                ));
            },
        }
        i += 1;
    }
    assert(model.subrange(0, i as int) =~= model);
    Some(out)
}

/// The host descriptor of array data, if it has one (see [`exportable`]):
/// its type, slots and null bitmap as they are, its buffers as little-endian
/// bytes, its children likewise. Importing it gives the array data back.
pub fn export_data(d: &ArrayData) -> (r: Option<JSData>)
    ensures
        r is Some <==> exportable(d@),
        r matches Some(j) ==> import_data_spec(j) == Ok::<ArrayDataModel, ArrowWasmError>(d@),
    decreases d, 1int,
{
    let len = d.len();
    let data_type = match export_data_type(d.data_type()) {
        Some(t) => t,
        None => return None,
    };
    let null_bitmap = match d.nulls() {
        None => None,
        Some(bits) => {
            if bits.len() == 0 {
                assert(bits@ =~= Seq::<u8>::empty());
                return None;
            }
            Some(whole_view(crate::array_data::copy_bytes(bits)))
        },
    };
    let children = match export_children(d) {
        Some(c) => c,
        None => return None,
    };
    let ghost t = d@.data_type;
    let ghost slots = buffer_slots(t).unwrap();
    let ghost bufs = d@.buffers;
    let buffers = d.buffers();
    proof {
        lemma_kinds_match(slots, bufs);
        assert(bufs.len() == slots.len());
        assert(forall|k: int| 0 <= k < buffers@.len() ==> #[trigger] bufs[k] == buffers@[k]@);
    }
    let has_offsets = crate::buffer::offset_layout_of(d.data_type()).is_some();
    let mut next: usize = 0;
    let value_offsets = if has_offsets {
        next = 1;
        whole_view(encode_buffer(&buffers[0]))
    } else {
        whole_view(Vec::new())
    };
    let values = if next < buffers.len() {
        whole_view(encode_buffer(&buffers[next]))
    } else {
        whole_view(Vec::new())
    };
    let type_ids = whole_view(Vec::new());
    let j = JSData {
        data_type,
        length: len,
        offset: d.offset(),
        stride: 1,
        children,
        values,
        type_ids,
        null_bitmap,
        value_offsets,
    };
    proof {
        let m = d@;
        assert(!(t is Union) && !(t is RunEndEncoded));
        let offs = match offset_layout(t) {
            Some(o) => seq![BufferSlot::Offsets(o)],
            None => Seq::<BufferSlot>::empty(),
        };
        let vals = if has_values_buffer(t) {
            seq![BufferSlot::Values(value_layout(t).unwrap())]
        } else {
            Seq::<BufferSlot>::empty()
        };
        assert(slots == offs + vals);
        if offset_layout(t) is Some {
            let l = offset_layout(t).unwrap();
            assert(slots[0] == BufferSlot::Offsets(l));
            lemma_offsets_round_trip(l, bufs[0], j.value_offsets.buffer@);
            assert(crate::js_data::offsets_of(t, j.value_offsets) == Ok::<
                BufferModel,
                ArrowWasmError,
            >(bufs[0]));
        }
        if has_values_buffer(t) {
            let l = value_layout(t).unwrap();
            assert(slots[next as int] == BufferSlot::Values(l));
            lemma_values_round_trip(l, bufs[next as int], j.values.buffer@);
            assert(crate::js_data::values_of(t, j.values) == Ok::<BufferModel, ArrowWasmError>(
                bufs[next as int],
            ));
        }
        let expected = match offset_layout(t) {
            Some(_) => seq![bufs[0]],
            None => Seq::<BufferModel>::empty(),
        } + if has_values_buffer(t) {
            seq![bufs[next as int]]
        } else {
            Seq::<BufferModel>::empty()
        };
        assert(bufs =~= expected);
        if has_values_buffer(t) {
            let o = match offset_layout(t) {
                Some(_) => seq![bufs[0]],
                None => Seq::<BufferModel>::empty(),
            };
            assert(expected =~= o.push(bufs[next as int]));
        } else {
            assert(expected =~= match offset_layout(t) {
                Some(_) => seq![bufs[0]],
                None => Seq::<BufferModel>::empty(),
            });
        }
        assert(crate::js_data::buffers_of(t, j) == Ok::<Seq<BufferModel>, ArrowWasmError>(bufs));
        assert(crate::js_data::null_bitmap_of(j) == Ok::<Option<Seq<u8>>, ArrowWasmError>(m.nulls));
        assert(layout_ok(m));
    }
    Some(j)
}

proof fn lemma_offsets_round_trip(l: crate::buffer::OffsetLayout, b: BufferModel, bytes: Seq<u8>)
    requires
        crate::array_data::slot_matches(BufferSlot::Offsets(l), b),
        encodes(b, bytes),
    ensures
        bytes.len() % crate::buffer::offset_width(l) == 0,
        crate::buffer::decode_offsets(l, bytes) == b,
{
}

proof fn lemma_values_round_trip(l: crate::buffer::ValueLayout, b: BufferModel, bytes: Seq<u8>)
    requires
        crate::array_data::slot_matches(BufferSlot::Values(l), b),
        encodes(b, bytes),
    ensures
        bytes.len() % crate::buffer::value_width(l) == 0,
        crate::buffer::decode_values(l, bytes) == b,
{
}

} // verus!
