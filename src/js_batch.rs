//! Host-side schema, record batch and table descriptors, and their import.
use vstd::prelude::*;

use crate::array_data::{children_view, lemma_children_view_empty, lemma_children_view_push, ArrayData, ArrayDataModel};
use crate::datatype::{fields_view, metadata_view, MetadataEntry};
use crate::error::{view_result, ArrowWasmError, SchemaError};
use crate::js_data::{import_data, import_data_spec, JSData};
use crate::js_type::{copy_metadata, decode_fields, import_fields, JSField};
use crate::record_batch::{batch_error, RecordBatch, RecordBatchModel};
use crate::schema::{Schema, SchemaModel};
use crate::table::{batches_view, first_schema_mismatch, Table, TableModel};

verus! {

/// A host schema descriptor.
#[derive(Debug)]
pub struct JSSchema {
    pub fields: Vec<JSField>,
    pub metadata: Vec<MetadataEntry>,
}

/// A host record batch descriptor: a schema and struct-typed data whose
/// children are the columns.
#[derive(Debug)]
pub struct JSRecordBatch {
    pub schema: JSSchema,
    pub data: JSData,
}

/// A host table descriptor.
#[derive(Debug)]
pub struct JSTable {
    pub schema: JSSchema,
    pub batches: Vec<JSRecordBatch>,
}

// ---------------------------------------------------------------------------
// The import, as mathematics.

pub open spec fn decode_schema(s: JSSchema) -> Result<SchemaModel, ArrowWasmError> {
    match decode_fields(s.fields@) {
        Err(e) => Err(e),
        Ok(fs) => Ok(SchemaModel { fields: fs, metadata: metadata_view(s.metadata@) }),
    }
}

/// A child of a struct node restricted to the node's slots.
pub open spec fn sliced_child(parent: ArrayDataModel, c: ArrayDataModel) -> ArrayDataModel {
    ArrayDataModel { offset: c.offset + parent.offset, len: parent.len, ..c }
}

/// The columns of a struct node: each child restricted to the node's slots;
/// a child too short for them is an error.
pub open spec fn struct_columns(parent: ArrayDataModel, cs: Seq<ArrayDataModel>) -> Result<
    Seq<ArrayDataModel>,
    ArrowWasmError,
>
    decreases cs.len(),
{
    if cs.len() == 0 {
        Ok(Seq::empty())
    } else {
        match struct_columns(parent, cs.drop_last()) {
            Err(e) => Err(e),
            Ok(prev) => if parent.offset + parent.len <= cs.last().len {
                Ok(prev.push(sliced_child(parent, cs.last())))
            } else {
                Err(
                    ArrowWasmError::Schema(
                        SchemaError::ColumnLength { index: (cs.len() - 1) as usize },
                    ),
                )
            },
        }
    }
}

/// A record batch from host data under a given schema.
pub open spec fn decode_record_batch(schema: SchemaModel, d: JSData) -> Result<
    RecordBatchModel,
    ArrowWasmError,
> {
    match import_data_spec(d) {
        Err(e) => Err(e),
        Ok(m) => if !(m.data_type is Struct) {
            Err(ArrowWasmError::Schema(SchemaError::NotStruct))
        } else {
            match struct_columns(m, m.children) {
                Err(e) => Err(e),
                Ok(cols) => match batch_error(schema.fields, cols) {
                    Some(e) => Err(ArrowWasmError::Schema(e)),
                    None => Ok(RecordBatchModel { schema, columns: cols, num_rows: cols[0].len }),
                },
            }
        },
    }
}

/// Batches imported in order under one schema; the first failure is the result.
pub open spec fn decode_batches(schema: SchemaModel, bs: Seq<JSRecordBatch>) -> Result<
    Seq<RecordBatchModel>,
    ArrowWasmError,
>
    decreases bs.len(),
{
    if bs.len() == 0 {
        Ok(Seq::empty())
    } else {
        match decode_batches(schema, bs.drop_last()) {
            Err(e) => Err(e),
            Ok(prev) => match decode_record_batch(schema, bs.last().data) {
                Err(e) => Err(e),
                Ok(b) => Ok(prev.push(b)),
            },
        }
    }
}

/// A table from a host table descriptor: every batch under the table's schema.
pub open spec fn decode_table(t: JSTable) -> Result<TableModel, ArrowWasmError> {
    match decode_schema(t.schema) {
        Err(e) => Err(e),
        Ok(s) => match decode_batches(s, t.batches@) {
            Err(e) => Err(e),
            Ok(bs) => Ok(TableModel { schema: s, batches: bs }),
        },
    }
}

// ---------------------------------------------------------------------------
// The import, as code.

/// The schema that a host schema descriptor stands for.
pub fn import_schema(js_schema: &JSSchema) -> (r: Result<Schema, ArrowWasmError>)
    ensures
        view_result(r) == decode_schema(*js_schema),
{
    let fields = match import_fields(&js_schema.fields) {
        Ok(f) => f,
        Err(e) => return Err(e),
    };
    let metadata = copy_metadata(&js_schema.metadata);
    Ok(Schema::new(fields, metadata))
}

proof fn lemma_struct_columns_prefix_err(parent: ArrayDataModel, cs: Seq<ArrayDataModel>, i: int)
    requires
        0 <= i <= cs.len(),
        struct_columns(parent, cs.subrange(0, i)) is Err,
    ensures
        struct_columns(parent, cs) == struct_columns(parent, cs.subrange(0, i)),
    decreases cs.len() - i,
{
    if i < cs.len() {
        assert(cs.subrange(0, i + 1).drop_last() =~= cs.subrange(0, i));
        lemma_struct_columns_prefix_err(parent, cs, i + 1);
    } else {
        assert(cs.subrange(0, i) =~= cs);
    }
}

/// The children of a struct node as columns: each restricted to the node's
/// slots.
fn columns_of_struct(parent: Ghost<ArrayDataModel>, offset: usize, len: usize, children: Vec<ArrayData>) -> (r:
    Result<Vec<ArrayData>, ArrowWasmError>)
    requires
        parent@.offset == offset,
        parent@.len == len,
    ensures
        match r {
            Ok(v) => struct_columns(parent@, children_view(children@)) == Ok::<
                Seq<ArrayDataModel>,
                ArrowWasmError,
            >(children_view(v@)),
            Err(e) => struct_columns(parent@, children_view(children@)) == Err::<
                Seq<ArrayDataModel>,
                ArrowWasmError,
            >(e),
        },
{
    let ghost cs = children_view(children@);
    let ghost input = children@;
    proof {
        crate::array_data::lemma_children_view_len(children@);
        lemma_children_view_empty();
        assert(cs.subrange(0, 0) =~= Seq::<ArrayDataModel>::empty());
    }
    let n = children.len();
    let mut rest = children;
    let mut out: Vec<ArrayData> = Vec::new();
    let mut i: usize = 0;
    while i < n
        invariant
            i <= n,
            n == input.len(),
            n == cs.len(),
            cs == children_view(input),
            input == children@,
            rest@ == input.subrange(i as int, n as int),
            struct_columns(parent@, cs.subrange(0, i as int)) == Ok::<
                Seq<ArrayDataModel>,
                ArrowWasmError,
            >(children_view(out@)),
            parent@.offset == offset,
            parent@.len == len,
        decreases n - i,
    {
        let c = rest.remove(0);
        proof {
            crate::array_data::lemma_children_view_index(input);
            assert(cs.subrange(0, i as int + 1).drop_last() =~= cs.subrange(0, i as int));
        }
        let clen = c.len();
        if offset > clen || len > clen - offset {
            proof {
                assert(c == input[i as int]);
                assert(cs[i as int] == c@);
                assert(cs.subrange(0, i as int + 1).last() == cs[i as int]);
                assert(struct_columns(parent@, cs.subrange(0, i as int + 1)) is Err);
                lemma_struct_columns_prefix_err(parent@, cs, i as int + 1);
                assert(struct_columns(parent@, cs.subrange(0, i as int + 1)) == Err::<
                    Seq<ArrayDataModel>,
                    ArrowWasmError,
                >(ArrowWasmError::Schema(SchemaError::ColumnLength { index: i })));
            }
            return Err(ArrowWasmError::Schema(SchemaError::ColumnLength { index: i }));
        }
        let s = c.slice(offset, len);
        proof {
            lemma_children_view_push(out@, s);
        }
        out.push(s);
        i += 1;
        assert(rest@ =~= input.subrange(i as int, n as int));
    }
    assert(cs.subrange(0, i as int) =~= cs);
    Ok(out)
}


impl RecordBatch {
    /// Imports a host record batch under `schema`: the data must be of a
    /// struct type, and its children, restricted to its slots, become the
    /// columns.
    pub fn from_js_with_schema(js_record_batch: &JSRecordBatch, schema: Schema) -> (r: Result<
        RecordBatch,
        ArrowWasmError,
    >)
        ensures
            view_result(r) == decode_record_batch(schema@, js_record_batch.data),
    {
        let data = match import_data(&js_record_batch.data) {
            Ok(d) => d,
            Err(e) => return Err(e),
        };
        let is_struct = match data.data_type() {
            crate::datatype::DataType::Struct(_) => true,
            _ => false,
        };
        if !is_struct {
            return Err(ArrowWasmError::Schema(SchemaError::NotStruct));
        }
        let ghost m = data@;
        let (_, len, _, offset, _, children) = data.into_parts();
        let columns = match columns_of_struct(Ghost(m), offset, len, children) {
            Ok(c) => c,
            Err(e) => return Err(e),
        };
        RecordBatch::try_new(schema, columns)
    }

    /// Imports a host record batch under its own schema.
    pub fn from_js(js_record_batch: &JSRecordBatch) -> (r: Result<RecordBatch, ArrowWasmError>)
        ensures
            view_result(r) == match decode_schema(js_record_batch.schema) {
                Err(e) => Err(e),
                Ok(s) => decode_record_batch(s, js_record_batch.data),
            },
    {
        let schema = match import_schema(&js_record_batch.schema) {
            Ok(s) => s,
            Err(e) => return Err(e),
        };
        RecordBatch::from_js_with_schema(js_record_batch, schema)
    }
}

/// Imports a host record batch under its own schema.
pub fn import_record_batch(js_record_batch: &JSRecordBatch) -> (r: Result<RecordBatch, ArrowWasmError>)
    ensures
        view_result(r) == match decode_schema(js_record_batch.schema) {
            Err(e) => Err(e),
            Ok(s) => decode_record_batch(s, js_record_batch.data),
        },
{
    RecordBatch::from_js(js_record_batch)
}

proof fn lemma_decode_batches_prefix_err(s: SchemaModel, bs: Seq<JSRecordBatch>, i: int)
    requires
        0 <= i <= bs.len(),
        decode_batches(s, bs.subrange(0, i)) is Err,
    ensures
        decode_batches(s, bs) == decode_batches(s, bs.subrange(0, i)),
    decreases bs.len() - i,
{
    if i < bs.len() {
        assert(bs.subrange(0, i + 1).drop_last() =~= bs.subrange(0, i));
        lemma_decode_batches_prefix_err(s, bs, i + 1);
    } else {
        assert(bs.subrange(0, i) =~= bs);
    }
}

proof fn lemma_decoded_batches_schema(s: SchemaModel, bs: Seq<JSRecordBatch>)
    requires
        decode_batches(s, bs) is Ok,
    ensures
        first_schema_mismatch(decode_batches(s, bs).unwrap(), s.fields) is None,
        decode_batches(s, bs).unwrap().len() == bs.len(),
    decreases bs.len(),
{
    if bs.len() > 0 {
        lemma_decoded_batches_schema(s, bs.drop_last());
        let all = decode_batches(s, bs).unwrap();
        assert(all.drop_last() =~= decode_batches(s, bs.drop_last()).unwrap());
    }
}

impl Table {
    /// Imports a host table: its schema, then every batch under it, in order.
    pub fn from_js(js_table: &JSTable) -> (r: Result<Table, ArrowWasmError>)
        ensures
            view_result(r) == decode_table(*js_table),
    {
        let schema = match import_schema(&js_table.schema) {
            Ok(s) => s,
            Err(e) => return Err(e),
        };
        let ghost sm = schema@;
        let mut batches: Vec<RecordBatch> = Vec::new();
        let mut i: usize = 0;
        let ghost jb = js_table.batches@;
        assert(jb.subrange(0, 0) =~= Seq::<JSRecordBatch>::empty());
        assert(batches_view(batches@) =~= Seq::<RecordBatchModel>::empty());
        while i < js_table.batches.len()
            invariant
                i <= jb.len(),
                jb == js_table.batches@,
                sm == schema@,
                decode_schema(js_table.schema) == Ok::<SchemaModel, ArrowWasmError>(sm),
                decode_batches(sm, jb.subrange(0, i as int)) == Ok::<
                    Seq<RecordBatchModel>,
                    ArrowWasmError,
                >(batches_view(batches@)),
            decreases jb.len() - i,
        {
            assert(jb.subrange(0, i as int + 1).drop_last() =~= jb.subrange(0, i as int));
            let batch_schema = match import_schema(&js_table.schema) {
                Ok(s) => s,
                Err(e) => return Err(e),
            };
            match RecordBatch::from_js_with_schema(&js_table.batches[i], batch_schema) {
                Ok(b) => {
                    let ghost before = batches@;
                    batches.push(b);
                    assert(batches@.drop_last() =~= before);
                    assert(batches_view(batches@) =~= batches_view(before).push(b@));
                },
                Err(e) => {
                    proof {
                        lemma_decode_batches_prefix_err(sm, jb, i as int + 1);
                    }
                    return Err(e);
                },
            }
            i += 1;
        }
        assert(jb.subrange(0, i as int) =~= jb);
        proof {
            lemma_decoded_batches_schema(sm, jb);
        }
        Table::try_new(schema, batches)
    }
}

/// Imports a host table: its schema, then every batch under it, in order.
pub fn import_table(js_table: &JSTable) -> (r: Result<Table, ArrowWasmError>)
    ensures
        view_result(r) == decode_table(*js_table),
{
    Table::from_js(js_table)
}

} // verus!
