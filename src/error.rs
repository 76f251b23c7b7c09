//! Errors of the import, layout and stream paths.
use vstd::prelude::*;

verus! {

/// A host type descriptor that names no valid logical type.
#[derive(Debug, Clone, Copy, PartialEq, Eq)]
pub enum TypeDecodeError {
    /// The placeholder type tag, which a real column never carries.
    PlaceholderType,
    /// An integer type whose bit width or signedness has no native type.
    IntWidth { bit_width: u8, is_signed: bool },
    /// A decimal type whose bit width is neither 128 nor 256.
    DecimalWidth { bit_width: usize },
    /// A list, fixed-size list or map type without exactly one child field.
    ChildCount { found: usize },
    /// A union type id outside `0..=127`.
    UnionTypeId { type_id: i32 },
    /// A union type id given twice.
    DuplicateUnionTypeId { type_id: i8 },
    /// A union whose type ids and child fields differ in number.
    UnionArity { type_ids: usize, children: usize },
}

/// A byte buffer that does not fit the layout that its type asks for.
#[derive(Debug, Clone, Copy, PartialEq, Eq)]
pub enum BufferLayoutError {
    /// The byte length is not a multiple of the element width.
    NotDivisible { byte_length: usize, width: usize },
    /// Offsets were requested for a type without an offsets buffer.
    NoOffsets,
    /// Values were requested for a type without a values buffer.
    NoValues,
    /// A byte view reaches past the end of its backing buffer.
    ViewOutOfBounds,
}

/// Array data that is inconsistent with its type.
#[derive(Debug, Clone, Copy, PartialEq, Eq)]
pub enum ArrayConstructionError {
    /// The number of buffers differs from what the type prescribes.
    BufferCount { expected: usize, found: usize },
    /// A buffer at `index` has the wrong element kind for the type.
    BufferKind { index: usize },
    /// A buffer at `index` holds fewer elements than the array spans.
    BufferTooShort { index: usize },
    /// The number of child arrays differs from what the type prescribes.
    ChildCount { expected: usize, found: usize },
    /// The null bitmap holds fewer bits than `offset + length`.
    NullBitmapTooShort,
    /// `offset + length` does not fit in a machine word.
    LengthOverflow,
    /// The type has no import layout (unions and run-end encoded arrays).
    UnsupportedType,
}

/// Columns that do not fit a schema, or a field that is not there.
#[derive(Debug, Clone, Copy, PartialEq, Eq)]
pub enum SchemaError {
    /// No field has the name asked for.
    FieldNotFound,
    /// The number of columns differs from the number of fields.
    ColumnCount { expected: usize, found: usize },
    /// Column `index` has another type than its field.
    ColumnType { index: usize },
    /// Column `index` has another length than the first column.
    ColumnLength { index: usize },
    /// A record batch needs at least one column to know its row count.
    NoColumns,
    /// The array data of a record batch is not of a struct type.
    NotStruct,
    /// Batch `index` of a table has other fields than the table's schema.
    BatchSchema { index: usize },
}

/// Every error of this library.
#[derive(Debug, Clone, PartialEq, Eq)]
pub enum ArrowWasmError {
    TypeDecode(TypeDecodeError),
    BufferLayout(BufferLayoutError),
    ArrayConstruction(ArrayConstructionError),
    Schema(SchemaError),
    /// The data type has no typed-array form.
    NoTypedArray,
    /// A stream callback reported a nonzero status code.
    StreamProtocol(i32),
}

} // verus!

verus! {

/// The model of a result: the value's view on success, the error as it is.
pub open spec fn view_result<T: View>(r: Result<T, ArrowWasmError>) -> Result<T::V, ArrowWasmError> {
    match r {
        Ok(v) => Ok(v@),
        Err(e) => Err(e),
    }
}

} // verus!
