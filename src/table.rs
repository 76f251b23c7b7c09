//! Tables: record batches under one schema.
use vstd::prelude::*;

use crate::datatype::{fields_eq, FieldModel};
use crate::error::{ArrowWasmError, SchemaError};
use crate::ffi::FFIStream;
use crate::record_batch::{RecordBatch, RecordBatchModel};
use crate::schema::{Schema, SchemaModel};

verus! {

/// The models of a sequence of batches, in order.
pub open spec fn batches_view(bs: Seq<RecordBatch>) -> Seq<RecordBatchModel> {
    bs.map_values(|b: RecordBatch| b@)
}

/// The first batch whose fields differ from `fs`.
pub open spec fn first_schema_mismatch(bs: Seq<RecordBatchModel>, fs: Seq<FieldModel>) -> Option<nat>
    decreases bs.len(),
{
    if bs.len() == 0 {
        None
    } else {
        match first_schema_mismatch(bs.drop_last(), fs) {
            Some(i) => Some(i),
            None => if bs.last().schema.fields == fs {
                None
            } else {
                Some((bs.len() - 1) as nat)
            },
        }
    }
}

/// Record batches that all have the fields of the table's schema. The check
/// is made when the table is built, for every batch.
#[derive(Debug)]
pub struct Table {
    schema: Schema,
    batches: Vec<RecordBatch>,
}

/// Mathematical model of [`Table`].
pub struct TableModel {
    pub schema: SchemaModel,
    pub batches: Seq<RecordBatchModel>,
}

impl View for Table {
    type V = TableModel;

    closed spec fn view(&self) -> TableModel {
        TableModel { schema: self.schema@, batches: batches_view(self.batches@) }
    }
}

proof fn lemma_schema_prefix(bs: Seq<RecordBatchModel>, fs: Seq<FieldModel>, i: int)
    requires
        0 <= i <= bs.len(),
        first_schema_mismatch(bs.subrange(0, i), fs) is Some,
    ensures
        first_schema_mismatch(bs, fs) == first_schema_mismatch(bs.subrange(0, i), fs),
    decreases bs.len() - i,
{
    if i < bs.len() {
        assert(bs.subrange(0, i + 1).drop_last() =~= bs.subrange(0, i));
        lemma_schema_prefix(bs, fs, i + 1);
    } else {
        assert(bs.subrange(0, i) =~= bs);
    }
}

proof fn lemma_schema_none(bs: Seq<RecordBatchModel>, fs: Seq<FieldModel>)
    requires
        first_schema_mismatch(bs, fs) is None,
    ensures
        forall|k: int| 0 <= k < bs.len() ==> #[trigger] bs[k].schema.fields == fs,
    decreases bs.len(),
{
    if bs.len() > 0 {
        lemma_schema_none(bs.drop_last(), fs);
        assert forall|k: int| 0 <= k < bs.len() implies #[trigger] bs[k].schema.fields == fs by {
            if k < bs.len() - 1 {
                assert(bs.drop_last()[k] == bs[k]);
            }
        }
    }
}

impl Table {
    #[verifier::type_invariant]
    spec fn inv(&self) -> bool {
        forall|k: int|
            0 <= k < self.batches@.len() ==> #[trigger] self.batches@[k]@.schema.fields
                == self.schema@.fields
    }

    /// Builds a table after checking that every batch has the fields of the
    /// schema; the error names the first batch that does not.
    pub fn try_new(schema: Schema, batches: Vec<RecordBatch>) -> (r: Result<Table, ArrowWasmError>)
        ensures
            match first_schema_mismatch(batches_view(batches@), schema@.fields) {
                Some(i) => r == Err::<Table, ArrowWasmError>(
                    ArrowWasmError::Schema(SchemaError::BatchSchema { index: i as usize }),
                ),
                None => r is Ok && r.unwrap()@ == (TableModel {
                    schema: schema@,
                    batches: batches_view(batches@),
                }),
            },
    {
        let ghost bs = batches_view(batches@);
        let ghost fs = schema@.fields;
        let mut i: usize = 0;
        while i < batches.len()
            invariant
                i <= batches@.len(),
                bs == batches_view(batches@),
                fs == schema@.fields,
                first_schema_mismatch(bs.subrange(0, i as int), fs) is None,
            decreases batches@.len() - i,
        {
            assert(bs.subrange(0, i as int + 1).drop_last() =~= bs.subrange(0, i as int));
            if !fields_eq(&batches[i].schema().fields, &schema.fields) {
                proof {
                    lemma_schema_prefix(bs, fs, i as int + 1);
                }
                return Err(ArrowWasmError::Schema(SchemaError::BatchSchema { index: i }));
            }
            i += 1;
        }
        assert(bs.subrange(0, i as int) =~= bs);
        proof {
            lemma_schema_none(bs, fs);
            assert forall|k: int| 0 <= k < batches@.len() implies #[trigger] batches@[k]@.schema.fields
                == fs by {
                assert(bs[k] == batches@[k]@);
            }
        }
        Ok(Table { schema, batches })
    }

    /// The batches themselves, in order.
    pub closed spec fn batch_values(&self) -> Seq<RecordBatch> {
        self.batches@
    }

    /// The schema.
    pub fn schema(&self) -> (r: &Schema)
        ensures
            r@ == self@.schema,
    {
        &self.schema
    }

    /// The number of batches.
    pub fn num_batches(&self) -> (r: usize)
        ensures
            r == self@.batches.len(),
    {
        self.batches.len()
    }

    /// The batch at position `index`, if there is one.
    pub fn record_batch(&self, index: usize) -> (r: Option<&RecordBatch>)
        ensures
            index < self@.batches.len() ==> r is Some && r.unwrap()@ == self@.batches[index as int],
            index >= self@.batches.len() ==> r is None,
    {
        if index < self.batches.len() {
            Some(&self.batches[index])
        } else {
            None
        }
    }

    /// All batches, in order.
    pub fn record_batches(&self) -> (r: &Vec<RecordBatch>)
        ensures
            batches_view(r@) == self@.batches,
    {
        &self.batches
    }

    /// Splits a table into its schema and batches.
    pub fn into_parts(self) -> (r: (Schema, Vec<RecordBatch>))
        ensures
            r.0@ == self@.schema,
            batches_view(r.1@) == self@.batches,
    {
        (self.schema, self.batches)
    }

    /// Exports the table without consuming it: `schema_struct` is the one
    /// schema struct, and each batch, borrowed, gives one array struct.
    pub fn to_ffi<S, A, F: Fn(&RecordBatch) -> A>(&self, schema_struct: S, export: F) -> (r:
        FFIStream<S, A>)
        requires
            forall|b: &RecordBatch| #[trigger] export.requires((b,)),
        ensures
            r.field == schema_struct,
            r.arrays@.len() == self@.batches.len(),
            forall|i: int|
                0 <= i < self@.batches.len() ==> export.ensures(
                    (&self.batch_values()[i],),
                    #[trigger] r.arrays@[i],
                ),
            batches_view(self.batch_values()) == self@.batches,
    {
        FFIStream::from_chunks(schema_struct, &self.batches, export)
    }

    /// Exports the table and consumes it: each batch is handed over to
    /// `export`, which makes its array struct (from the batch's struct form,
    /// see [`RecordBatch::into_struct_data`]); `schema_struct` is the one
    /// schema struct they share.
    pub fn into_ffi<S, A, F: Fn(RecordBatch) -> A>(self, schema_struct: S, export: F) -> (r:
        FFIStream<S, A>)
        requires
            forall|b: RecordBatch| #[trigger] export.requires((b,)),
        ensures
            r.field == schema_struct,
            r.arrays@.len() == self@.batches.len(),
            forall|i: int|
                0 <= i < self@.batches.len() ==> export.ensures(
                    (self.batch_values()[i],),
                    #[trigger] r.arrays@[i],
                ),
            batches_view(self.batch_values()) == self@.batches,
    {
        let Table { schema: _, batches } = self;
        FFIStream::from_owned_chunks(schema_struct, batches, export)
    }
}

} // verus!
