//! Chunked columns: several array data values of one type.
use vstd::prelude::*;

use crate::array_data::{children_view, ArrayData, ArrayDataModel};
use crate::datatype::{data_type_eq, DataType, Field, FieldModel, LogicalType};
use crate::error::{ArrowWasmError, SchemaError};

verus! {

/// The first chunk whose type is not `t`.
pub open spec fn first_other_type(chunks: Seq<ArrayDataModel>, t: LogicalType) -> Option<nat>
    decreases chunks.len(),
{
    if chunks.len() == 0 {
        None
    } else {
        match first_other_type(chunks.drop_last(), t) {
            Some(i) => Some(i),
            None => if chunks.last().data_type == t {
                None
            } else {
                Some((chunks.len() - 1) as nat)
            },
        }
    }
}

proof fn lemma_other_type_prefix(cs: Seq<ArrayDataModel>, t: LogicalType, i: int)
    requires
        0 <= i <= cs.len(),
        first_other_type(cs.subrange(0, i), t) is Some,
    ensures
        first_other_type(cs, t) == first_other_type(cs.subrange(0, i), t),
    decreases cs.len() - i,
{
    if i < cs.len() {
        assert(cs.subrange(0, i + 1).drop_last() =~= cs.subrange(0, i));
        lemma_other_type_prefix(cs, t, i + 1);
    } else {
        assert(cs.subrange(0, i) =~= cs);
    }
}

proof fn lemma_other_type_none(cs: Seq<ArrayDataModel>, t: LogicalType)
    requires
        first_other_type(cs, t) is None,
    ensures
        forall|k: int| 0 <= k < cs.len() ==> #[trigger] cs[k].data_type == t,
    decreases cs.len(),
{
    if cs.len() > 0 {
        lemma_other_type_none(cs.drop_last(), t);
        assert forall|k: int| 0 <= k < cs.len() implies #[trigger] cs[k].data_type == t by {
            if k < cs.len() - 1 {
                assert(cs.drop_last()[k] == cs[k]);
            }
        }
    }
}


/// The first chunk whose type differs from `t`, found by looking at each.
fn find_other_type(chunks: &Vec<ArrayData>, t: &DataType) -> (r: Option<usize>)
    ensures
        r == match first_other_type(children_view(chunks@), t@) {
            Some(i) => Some(i as usize),
            None => None::<usize>,
        },
{
    let ghost cs = children_view(chunks@);
    proof {
        crate::array_data::lemma_children_view_len(chunks@);
    }
    let mut i: usize = 0;
    while i < chunks.len()
        invariant
            i <= chunks@.len(),
            cs == children_view(chunks@),
            cs.len() == chunks@.len(),
            first_other_type(cs.subrange(0, i as int), t@) is None,
        decreases chunks@.len() - i,
    {
        proof {
            crate::array_data::lemma_children_view_index(chunks@);
        }
        assert(cs.subrange(0, i as int + 1).drop_last() =~= cs.subrange(0, i as int));
        if !data_type_eq(chunks[i].data_type(), t) {
            proof {
                lemma_other_type_prefix(cs, t@, i as int + 1);
            }
            return Some(i);
        }
        i += 1;
    }
    assert(cs.subrange(0, i as int) =~= cs);
    None
}

/// Chunks of array data that all have the type of one field.
#[derive(Debug)]
pub struct Vector {
    chunks: Vec<ArrayData>,
    field: Field,
}

impl Vector {
    #[verifier::type_invariant]
    spec fn inv(&self) -> bool {
        forall|k: int|
            0 <= k < children_view(self.chunks@).len() ==> #[trigger] children_view(
                self.chunks@,
            )[k].data_type == self.field@.data_type
    }

    /// The chunks.
    pub closed spec fn chunks_model(&self) -> Seq<ArrayDataModel> {
        children_view(self.chunks@)
    }

    /// The field.
    pub closed spec fn field_model(&self) -> FieldModel {
        self.field@
    }

    /// Builds a vector after checking that every chunk has the field's type;
    /// the error names the first chunk that does not.
    pub fn try_new(chunks: Vec<ArrayData>, field: Field) -> (r: Result<Vector, ArrowWasmError>)
        ensures
            match first_other_type(children_view(chunks@), field@.data_type) {
                Some(i) => r == Err::<Vector, ArrowWasmError>(
                    ArrowWasmError::Schema(SchemaError::ColumnType { index: i as usize }),
                ),
                None => r is Ok && r.unwrap().chunks_model() == children_view(chunks@)
                    && r.unwrap().field_model() == field@,
            },
    {
        match find_other_type(&chunks, &field.data_type) {
            Some(index) => Err(ArrowWasmError::Schema(SchemaError::ColumnType { index })),
            None => {
                proof {
                    lemma_other_type_none(children_view(chunks@), field@.data_type);
                }
                Ok(Vector { chunks, field })
            },
        }
    }

    /// Builds a vector from chunks alone, under a nullable field named `""`
    /// of the first chunk's type; no chunk at all is an error, and so is a
    /// chunk of another type than the first.
    pub fn from_array_refs(chunks: Vec<ArrayData>) -> (r: Result<Vector, ArrowWasmError>)
        ensures
            chunks@.len() == 0 ==> r == Err::<Vector, ArrowWasmError>(
                ArrowWasmError::Schema(SchemaError::NoColumns),
            ),
            chunks@.len() > 0 ==> match first_other_type(
                children_view(chunks@),
                children_view(chunks@)[0].data_type,
            ) {
                Some(i) => r == Err::<Vector, ArrowWasmError>(
                    ArrowWasmError::Schema(SchemaError::ColumnType { index: i as usize }),
                ),
                None => r is Ok && r.unwrap().chunks_model() == children_view(chunks@)
                    && r.unwrap().field_model() == (FieldModel {
                    name: Seq::empty(),
                    data_type: children_view(chunks@)[0].data_type,
                    nullable: true,
                    metadata: Seq::empty(),
                }),
            },
    {
        if chunks.len() == 0 {
            return Err(ArrowWasmError::Schema(SchemaError::NoColumns));
        }
        proof {
            crate::array_data::lemma_children_view_index(chunks@);
        }
        let data_type = chunks[0].data_type().deep_clone();
        let field = Field::new(String::new(), data_type, true);
        Vector::try_new(chunks, field)
    }

    /// The field's type, shared by every chunk.
    pub fn data_type(&self) -> (r: &DataType)
        ensures
            r@ == self.field_model().data_type,
    {
        &self.field.data_type
    }

    /// The chunks.
    pub fn chunks(&self) -> (r: &Vec<ArrayData>)
        ensures
            children_view(r@) == self.chunks_model(),
    {
        &self.chunks
    }

    /// The field.
    pub fn field(&self) -> (r: &Field)
        ensures
            r@ == self.field_model(),
    {
        &self.field
    }
}

} // verus!
