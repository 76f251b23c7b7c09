//! The values of primitive array data as typed arrays, the form in which a
//! host runtime holds numbers.
use vstd::prelude::*;

use crate::array_data::{ArrayData, ArrayDataModel};
use crate::buffer::{Buffer, BufferModel};
use crate::datatype::{DataType, LogicalType};
use crate::error::ArrowWasmError;

verus! {

/// Values of one primitive type. Floating-point values are held as their IEEE
/// 754 bit patterns.
#[derive(Debug)]
pub enum TypedArray {
    Uint8(Vec<u8>),
    Uint16(Vec<u16>),
    Uint32(Vec<u32>),
    BigUint64(Vec<u64>),
    Int8(Vec<i8>),
    Int16(Vec<i16>),
    Int32(Vec<i32>),
    BigInt64(Vec<i64>),
    Float32(Vec<u32>),
    Float64(Vec<u64>),
}

/// Mathematical model of [`TypedArray`].
pub enum TypedArrayModel {
    Uint8(Seq<u8>),
    Uint16(Seq<u16>),
    Uint32(Seq<u32>),
    BigUint64(Seq<u64>),
    Int8(Seq<i8>),
    Int16(Seq<i16>),
    Int32(Seq<i32>),
    BigInt64(Seq<i64>),
    Float32(Seq<u32>),
    Float64(Seq<u64>),
}

impl View for TypedArray {
    type V = TypedArrayModel;

    open spec fn view(&self) -> TypedArrayModel {
        match self {
            TypedArray::Uint8(v) => TypedArrayModel::Uint8(v@),
            TypedArray::Uint16(v) => TypedArrayModel::Uint16(v@),
            TypedArray::Uint32(v) => TypedArrayModel::Uint32(v@),
            TypedArray::BigUint64(v) => TypedArrayModel::BigUint64(v@),
            TypedArray::Int8(v) => TypedArrayModel::Int8(v@),
            TypedArray::Int16(v) => TypedArrayModel::Int16(v@),
            TypedArray::Int32(v) => TypedArrayModel::Int32(v@),
            TypedArray::BigInt64(v) => TypedArrayModel::BigInt64(v@),
            TypedArray::Float32(v) => TypedArrayModel::Float32(v@),
            TypedArray::Float64(v) => TypedArrayModel::Float64(v@),
        }
    }
}

/// The slots `offset..offset + len` of a model's values: the typed array of
/// an integer or floating-point (32- or 64-bit) array; nulls are not looked at.
pub open spec fn typed_array_of(d: ArrayDataModel) -> Result<TypedArrayModel, ArrowWasmError> {
    let s = d.offset as int;
    let e = (d.offset + d.len) as int;
    if d.buffers.len() != 1 {
        Err(ArrowWasmError::NoTypedArray)
    } else {
        match (d.data_type, d.buffers[0]) {
            (LogicalType::UInt8, BufferModel::Bytes(v)) => Ok(
                TypedArrayModel::Uint8(v.subrange(s, e)),
            ),
            (LogicalType::Int8, BufferModel::Bytes(v)) => Ok(
                TypedArrayModel::Int8(v.subrange(s, e).map_values(|x: u8| x as i8)),
            ),
            (LogicalType::UInt16, BufferModel::Words16(v)) => Ok(
                TypedArrayModel::Uint16(v.subrange(s, e)),
            ),
            (LogicalType::Int16, BufferModel::Words16(v)) => Ok(
                TypedArrayModel::Int16(v.subrange(s, e).map_values(|x: u16| x as i16)),
            ),
            (LogicalType::UInt32, BufferModel::Words32(v)) => Ok(
                TypedArrayModel::Uint32(v.subrange(s, e)),
            ),
            (LogicalType::Int32, BufferModel::Words32(v)) => Ok(
                TypedArrayModel::Int32(v.subrange(s, e).map_values(|x: u32| x as i32)),
            ),
            (LogicalType::Float32, BufferModel::Words32(v)) => Ok(
                TypedArrayModel::Float32(v.subrange(s, e)),
            ),
            (LogicalType::UInt64, BufferModel::Words64(v)) => Ok(
                TypedArrayModel::BigUint64(v.subrange(s, e)),
            ),
            (LogicalType::Int64, BufferModel::Words64(v)) => Ok(
                TypedArrayModel::BigInt64(v.subrange(s, e).map_values(|x: u64| x as i64)),
            ),
            (LogicalType::Float64, BufferModel::Words64(v)) => Ok(
                TypedArrayModel::Float64(v.subrange(s, e)),
            ),
            _ => Err(ArrowWasmError::NoTypedArray),
        }
    }
}

fn slice_copy<T: Copy>(v: &Vec<T>, start: usize, end: usize) -> (r: Vec<T>)
    requires
        start <= end <= v@.len(),
    ensures
        r@ == v@.subrange(start as int, end as int),
{
    let mut out: Vec<T> = Vec::new();
    let mut i: usize = start;
    while i < end
        invariant
            start <= i <= end,
            end <= v@.len(),
            out@ == v@.subrange(start as int, i as int),
        decreases end - i,
    {
        out.push(v[i]);
        i += 1;
        assert(out@ =~= v@.subrange(start as int, i as int));
    }
    out
}

fn signed8(v: &Vec<u8>, start: usize, end: usize) -> (r: Vec<i8>)
    requires
        start <= end <= v@.len(),
    ensures
        r@ == v@.subrange(start as int, end as int).map_values(|x: u8| x as i8),
{
    let mut out: Vec<i8> = Vec::new();
    let mut i: usize = start;
    while i < end
        invariant
            start <= i <= end,
            end <= v@.len(),
            out@ == v@.subrange(start as int, i as int).map_values(|x: u8| x as i8),
        decreases end - i,
    {
        out.push(v[i] as i8);
        i += 1;
        assert(out@ =~= v@.subrange(start as int, i as int).map_values(|x: u8| x as i8));
    }
    out
}

fn signed16(v: &Vec<u16>, start: usize, end: usize) -> (r: Vec<i16>)
    requires
        start <= end <= v@.len(),
    ensures
        r@ == v@.subrange(start as int, end as int).map_values(|x: u16| x as i16),
{
    let mut out: Vec<i16> = Vec::new();
    let mut i: usize = start;
    while i < end
        invariant
            start <= i <= end,
            end <= v@.len(),
            out@ == v@.subrange(start as int, i as int).map_values(|x: u16| x as i16),
        decreases end - i,
    {
        out.push(v[i] as i16);
        i += 1;
        assert(out@ =~= v@.subrange(start as int, i as int).map_values(|x: u16| x as i16));
    }
    out
}

fn signed32(v: &Vec<u32>, start: usize, end: usize) -> (r: Vec<i32>)
    requires
        start <= end <= v@.len(),
    ensures
        r@ == v@.subrange(start as int, end as int).map_values(|x: u32| x as i32),
{
    let mut out: Vec<i32> = Vec::new();
    let mut i: usize = start;
    while i < end
        invariant
            start <= i <= end,
            end <= v@.len(),
            out@ == v@.subrange(start as int, i as int).map_values(|x: u32| x as i32),
        decreases end - i,
    {
        out.push(v[i] as i32);
        i += 1;
        assert(out@ =~= v@.subrange(start as int, i as int).map_values(|x: u32| x as i32));
    }
    out
}

fn signed64(v: &Vec<u64>, start: usize, end: usize) -> (r: Vec<i64>)
    requires
        start <= end <= v@.len(),
    ensures
        r@ == v@.subrange(start as int, end as int).map_values(|x: u64| x as i64),
{
    let mut out: Vec<i64> = Vec::new();
    let mut i: usize = start;
    while i < end
        invariant
            start <= i <= end,
            end <= v@.len(),
            out@ == v@.subrange(start as int, i as int).map_values(|x: u64| x as i64),
        decreases end - i,
    {
        out.push(v[i] as i64);
        i += 1;
        assert(out@ =~= v@.subrange(start as int, i as int).map_values(|x: u64| x as i64));
    }
    out
}

impl ArrayData {
    /// Copies the values of an integer or floating-point array into a typed
    /// array; null slots are copied like the others. Other types are an error.
    pub fn to_typed_array(&self) -> (r: Result<TypedArray, ArrowWasmError>)
        ensures
            match r {
                Ok(t) => typed_array_of(self@) == Ok::<TypedArrayModel, ArrowWasmError>(t@),
                Err(e) => typed_array_of(self@) == Err::<TypedArrayModel, ArrowWasmError>(e),
            },
    {
        let len = self.len();
        let start = self.offset();
        let bufs = self.buffers();
        if bufs.len() != 1 {
            return Err(ArrowWasmError::NoTypedArray);
        }
        let ghost bv = self@.buffers;
        assert(bv[0] == bufs@[0]@);
        let end = start + len;
        proof {
            let t = self@.data_type;
            if crate::buffer::value_layout(t) is Some && crate::buffer::offset_layout(t) is None
                && !(t is Boolean) && !(t is FixedSizeBinary) {
                crate::array_data::lemma_primitive_buffer_covers(self@);
            }
        }
        match (self.data_type(), &bufs[0]) {
            (DataType::UInt8, Buffer::Bytes(v)) => Ok(TypedArray::Uint8(slice_copy(v, start, end))),
            (DataType::Int8, Buffer::Bytes(v)) => Ok(TypedArray::Int8(signed8(v, start, end))),
            (DataType::UInt16, Buffer::Words16(v)) => Ok(
                TypedArray::Uint16(slice_copy(v, start, end)),
            ),
            (DataType::Int16, Buffer::Words16(v)) => Ok(TypedArray::Int16(signed16(v, start, end))),
            (DataType::UInt32, Buffer::Words32(v)) => Ok(
                TypedArray::Uint32(slice_copy(v, start, end)),
            ),
            (DataType::Int32, Buffer::Words32(v)) => Ok(TypedArray::Int32(signed32(v, start, end))),
            (DataType::Float32, Buffer::Words32(v)) => Ok(
                TypedArray::Float32(slice_copy(v, start, end)),
            ),
            (DataType::UInt64, Buffer::Words64(v)) => Ok(
                TypedArray::BigUint64(slice_copy(v, start, end)),
            ),
            (DataType::Int64, Buffer::Words64(v)) => Ok(
                TypedArray::BigInt64(signed64(v, start, end)),
            ),
            (DataType::Float64, Buffer::Words64(v)) => Ok(
                TypedArray::Float64(slice_copy(v, start, end)),
            ),
            _ => Err(ArrowWasmError::NoTypedArray),
        }
    }
}

} // verus!
