//! A column value with its field: array data whose type is the field's.
use vstd::prelude::*;

use crate::array_data::{ArrayData, ArrayDataModel};
use crate::datatype::{DataType, Field, FieldModel};
use crate::error::ArrowWasmError;
use crate::ffi::FFIData;
use crate::typed_array::{typed_array_of, TypedArray, TypedArrayModel};

verus! {

/// Array data with the field that describes it.
#[derive(Debug)]
pub struct Data {
    array: ArrayData,
    field: Field,
}

impl Data {
    #[verifier::type_invariant]
    spec fn inv(&self) -> bool {
        self.array@.data_type == self.field@.data_type
    }

    /// The array data.
    pub closed spec fn array_model(&self) -> ArrayDataModel {
        self.array@
    }

    /// The array data itself.
    pub closed spec fn array_value(&self) -> ArrayData {
        self.array
    }

    /// The field itself.
    pub closed spec fn field_value(&self) -> Field {
        self.field
    }

    /// The field.
    pub closed spec fn field_model(&self) -> FieldModel {
        self.field@
    }

    /// Pairs array data with a field of the same type.
    pub fn new(array: ArrayData, field: Field) -> (r: Data)
        requires
            array@.data_type == field@.data_type,
        ensures
            r.array_model() == array@,
            r.field_model() == field@,
    {
        Data { array, field }
    }

    /// Pairs array data with a nullable field named `""` of its type.
    pub fn from_array_ref(array: ArrayData) -> (r: Data)
        ensures
            r.array_model() == array@,
            r.field_model() == (FieldModel {
                name: Seq::empty(),
                data_type: array@.data_type,
                nullable: true,
                metadata: Seq::empty(),
            }),
    {
        let data_type: DataType = array.data_type().deep_clone();
        let name = String::new();
        let field = Field::new(name, data_type, true);
        Data { array, field }
    }

    /// The array data.
    pub fn array(&self) -> (r: &ArrayData)
        ensures
            r@ == self.array_model(),
    {
        &self.array
    }

    /// The field.
    pub fn field(&self) -> (r: &Field)
        ensures
            r@ == self.field_model(),
    {
        &self.field
    }

    /// Copies the values to a typed array (see [`ArrayData::to_typed_array`]).
    pub fn to_typed_array(&self) -> (r: Result<TypedArray, ArrowWasmError>)
        ensures
            match r {
                Ok(t) => typed_array_of(self.array_model()) == Ok::<
                    TypedArrayModel,
                    ArrowWasmError,
                >(t@),
                Err(e) => typed_array_of(self.array_model()) == Err::<
                    TypedArrayModel,
                    ArrowWasmError,
                >(e),
            },
    {
        self.array.to_typed_array()
    }

    /// Exports without consuming: `export` borrows the array data and the
    /// field and makes the schema struct and the array struct.
    pub fn to_ffi<S, A, F: Fn(&ArrayData, &Field) -> (S, A)>(&self, export: F) -> (r: FFIData<S, A>)
        requires
            forall|a: &ArrayData, f: &Field| #[trigger] export.requires((a, f)),
        ensures
            export.ensures((&self.array_value(), &self.field_value()), (r.schema, r.array)),
            self.array_value()@ == self.array_model(),
            self.field_value()@ == self.field_model(),
    {
        let (schema, array) = export(&self.array, &self.field);
        FFIData::new(array, schema)
    }
}

} // verus!
