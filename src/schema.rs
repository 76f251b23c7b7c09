//! Schemas: ordered fields with metadata.
use vstd::prelude::*;

use crate::datatype::{
    fields_view, lemma_fields_view_index, lemma_fields_view_len, metadata_view, DataType, Field,
    FieldModel, MetadataEntry,
};
use crate::error::{ArrowWasmError, SchemaError};

verus! {

/// Ordered fields and key/value metadata describing the columns of record
/// batches and tables.
#[derive(Debug)]
pub struct Schema {
    pub fields: Vec<Field>,
    pub metadata: Vec<MetadataEntry>,
}

/// Mathematical model of [`Schema`].
pub struct SchemaModel {
    pub fields: Seq<FieldModel>,
    pub metadata: Seq<(Seq<char>, Seq<char>)>,
}

impl View for Schema {
    type V = SchemaModel;

    open spec fn view(&self) -> SchemaModel {
        SchemaModel { fields: fields_view(self.fields@), metadata: metadata_view(self.metadata@) }
    }
}

/// The first position of a field named `name`, if any.
pub open spec fn index_of_name(fs: Seq<FieldModel>, name: Seq<char>) -> Option<nat>
    decreases fs.len(),
{
    if fs.len() == 0 {
        None
    } else {
        match index_of_name(fs.drop_last(), name) {
            Some(i) => Some(i),
            None => if fs.last().name == name {
                Some((fs.len() - 1) as nat)
            } else {
                None
            },
        }
    }
}

proof fn lemma_index_of_name_prefix(fs: Seq<FieldModel>, name: Seq<char>, i: int)
    requires
        0 <= i <= fs.len(),
        index_of_name(fs.subrange(0, i), name) is Some,
    ensures
        index_of_name(fs, name) == index_of_name(fs.subrange(0, i), name),
    decreases fs.len() - i,
{
    if i < fs.len() {
        assert(fs.subrange(0, i + 1).drop_last() =~= fs.subrange(0, i));
        lemma_index_of_name_prefix(fs, name, i + 1);
    } else {
        assert(fs.subrange(0, i) =~= fs);
    }
}

impl Schema {
    pub fn new(fields: Vec<Field>, metadata: Vec<MetadataEntry>) -> (r: Schema)
        ensures
            r.fields@ == fields@,
            r.metadata@ == metadata@,
    {
        Schema { fields, metadata }
    }

    /// The number of fields.
    pub fn num_fields(&self) -> (r: usize)
        ensures
            r == self@.fields.len(),
    {
        proof {
            lemma_fields_view_len(self.fields@);
        }
        self.fields.len()
    }

    /// The field at position `i`.
    pub fn field(&self, i: usize) -> (r: &Field)
        requires
            i < self@.fields.len(),
        ensures
            r@ == self@.fields[i as int],
    {
        proof {
            lemma_fields_view_len(self.fields@);
            lemma_fields_view_index(self.fields@);
        }
        &self.fields[i]
    }

    /// The position of the first field named `name`.
    pub fn index_of(&self, name: &str) -> (r: Result<usize, ArrowWasmError>)
        ensures
            match index_of_name(self@.fields, name@) {
                Some(i) => r == Ok::<usize, ArrowWasmError>(i as usize),
                None => r == Err::<usize, ArrowWasmError>(
                    ArrowWasmError::Schema(SchemaError::FieldNotFound),
                ),
            },
    {
        let wanted = name.to_owned();
        let ghost fs = self@.fields;
        proof {
            lemma_fields_view_len(self.fields@);
            lemma_fields_view_index(self.fields@);
        }
        let mut i: usize = 0;
        while i < self.fields.len()
            invariant
                i <= self.fields@.len(),
                fs == fields_view(self.fields@),
                fs.len() == self.fields@.len(),
                wanted@ == name@,
                forall|k: int| 0 <= k < fs.len() ==> #[trigger] fs[k] == self.fields@[k]@,
                index_of_name(fs.subrange(0, i as int), name@) is None,
            decreases self.fields@.len() - i,
        {
            assert(fs.subrange(0, i as int + 1).drop_last() =~= fs.subrange(0, i as int));
            if self.fields[i].name == wanted {
                proof {
                    lemma_index_of_name_prefix(fs, name@, i as int + 1);
                }
                return Ok(i);
            }
            i += 1;
        }
        assert(fs.subrange(0, i as int) =~= fs);
        Err(ArrowWasmError::Schema(SchemaError::FieldNotFound))
    }

    /// The first field named `name`.
    pub fn field_with_name(&self, name: &str) -> (r: Result<&Field, ArrowWasmError>)
        ensures
            index_of_name(self@.fields, name@) is None ==> r == Err::<&Field, ArrowWasmError>(
                ArrowWasmError::Schema(SchemaError::FieldNotFound),
            ),
            index_of_name(self@.fields, name@) matches Some(i) ==> r matches Ok(f) && f@
                == self@.fields[i as int],
    {
        // Makes the number of fields known to fit a machine word.
        let _n = self.num_fields();
        proof {
            lemma_index_of_name_bound(self@.fields, name@);
        }
        match self.index_of(name) {
            Ok(i) => {
                let f = self.field(i);
                assert(f@ == self@.fields[i as int]);
                Ok(f)
            },
            Err(e) => Err(e),
        }
    }

    /// The metadata, in order.
    pub fn metadata(&self) -> (r: &Vec<MetadataEntry>)
        ensures
            metadata_view(r@) == self@.metadata,
    {
        &self.metadata
    }

    /// This schema with its metadata replaced.
    pub fn with_metadata(self, metadata: Vec<MetadataEntry>) -> (r: Schema)
        ensures
            r@ == (SchemaModel { metadata: metadata_view(metadata@), ..self@ }),
    {
        Schema { fields: self.fields, metadata }
    }
}

proof fn lemma_index_of_name_bound(fs: Seq<FieldModel>, name: Seq<char>)
    ensures
        index_of_name(fs, name) matches Some(i) ==> i < fs.len() && fs[i as int].name == name,
    decreases fs.len(),
{
    if fs.len() > 0 {
        lemma_index_of_name_bound(fs.drop_last(), name);
    }
}

impl Field {
    pub fn new(name: String, data_type: DataType, nullable: bool) -> (r: Field)
        ensures
            r@ == (FieldModel {
                name: name@,
                data_type: data_type@,
                nullable,
                metadata: Seq::empty(),
            }),
    {
        let r = Field { name, data_type, nullable, metadata: Vec::new() };
        assert(metadata_view(r.metadata@) =~= Seq::empty());
        r
    }

    /// The name.
    pub fn name(&self) -> (r: &String)
        ensures
            r@ == self@.name,
    {
        &self.name
    }

    /// The logical type.
    pub fn data_type(&self) -> (r: &DataType)
        ensures
            r@ == self@.data_type,
    {
        &self.data_type
    }

    /// Whether the field admits nulls.
    pub fn is_nullable(&self) -> (r: bool)
        ensures
            r == self@.nullable,
    {
        self.nullable
    }

    /// The metadata, in order.
    pub fn metadata(&self) -> (r: &Vec<MetadataEntry>)
        ensures
            metadata_view(r@) == self@.metadata,
    {
        &self.metadata
    }

    /// This field under another name; nothing else changes.
    pub fn with_name(self, name: String) -> (r: Field)
        ensures
            r@ == (FieldModel { name: name@, ..self@ }),
    {
        Field { name, ..self }
    }

    /// This field with its metadata replaced; nothing else changes.
    pub fn with_metadata(self, metadata: Vec<MetadataEntry>) -> (r: Field)
        ensures
            r@ == (FieldModel { metadata: metadata_view(metadata@), ..self@ }),
    {
        Field { metadata, ..self }
    }
}

} // verus!
