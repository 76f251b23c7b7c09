//! Record batches: equally long columns under a schema.
use vstd::prelude::*;

use crate::array_data::{children_view, lemma_children_view_index, ArrayData, ArrayDataModel};
use crate::datatype::{
    data_type_eq, fields_view, lemma_fields_view_index, lemma_fields_view_len, DataType, Field,
    FieldModel, LogicalType,
};
use crate::error::{ArrowWasmError, SchemaError};
use crate::ffi::FFIData;
use crate::schema::{index_of_name, Schema, SchemaModel};

verus! {

/// The first column whose length differs from `n`.
pub open spec fn first_length_mismatch(cols: Seq<ArrayDataModel>, n: nat) -> Option<nat>
    decreases cols.len(),
{
    if cols.len() == 0 {
        None
    } else {
        match first_length_mismatch(cols.drop_last(), n) {
            Some(i) => Some(i),
            None => if cols.last().len == n {
                None
            } else {
                Some((cols.len() - 1) as nat)
            },
        }
    }
}

/// The first column whose type differs from its field's.
pub open spec fn first_type_mismatch(cols: Seq<ArrayDataModel>, fs: Seq<FieldModel>) -> Option<nat>
    decreases cols.len(),
{
    if cols.len() == 0 {
        None
    } else {
        match first_type_mismatch(cols.drop_last(), fs) {
            Some(i) => Some(i),
            None => if cols.last().data_type == fs[cols.len() - 1].data_type {
                None
            } else {
                Some((cols.len() - 1) as nat)
            },
        }
    }
}

/// Why columns do not make a record batch under a schema, checked in this
/// order: their number, their absence, their lengths, their types.
pub open spec fn batch_error(fs: Seq<FieldModel>, cols: Seq<ArrayDataModel>) -> Option<SchemaError> {
    if cols.len() != fs.len() {
        Some(SchemaError::ColumnCount { expected: fs.len() as usize, found: cols.len() as usize })
    } else if cols.len() == 0 {
        Some(SchemaError::NoColumns)
    } else if first_length_mismatch(cols, cols[0].len) is Some {
        Some(
            SchemaError::ColumnLength {
                index: first_length_mismatch(cols, cols[0].len).unwrap() as usize,
            },
        )
    } else if first_type_mismatch(cols, fs) is Some {
        Some(SchemaError::ColumnType { index: first_type_mismatch(cols, fs).unwrap() as usize })
    } else {
        None
    }
}

/// Columns of one length, one per field of the schema and of its type.
#[derive(Debug)]
pub struct RecordBatch {
    schema: Schema,
    columns: Vec<ArrayData>,
    num_rows: usize,
}

/// Mathematical model of [`RecordBatch`].
pub struct RecordBatchModel {
    pub schema: SchemaModel,
    pub columns: Seq<ArrayDataModel>,
    pub num_rows: nat,
}

impl View for RecordBatch {
    type V = RecordBatchModel;

    closed spec fn view(&self) -> RecordBatchModel {
        RecordBatchModel {
            schema: self.schema@,
            columns: children_view(self.columns@),
            num_rows: self.num_rows as nat,
        }
    }
}

/// Whether a model is a valid record batch.
pub open spec fn batch_ok(b: RecordBatchModel) -> bool {
    &&& batch_error(b.schema.fields, b.columns) is None
    &&& b.num_rows == b.columns[0].len
}

proof fn lemma_length_prefix(cols: Seq<ArrayDataModel>, n: nat, i: int)
    requires
        0 <= i <= cols.len(),
        first_length_mismatch(cols.subrange(0, i), n) is Some,
    ensures
        first_length_mismatch(cols, n) == first_length_mismatch(cols.subrange(0, i), n),
    decreases cols.len() - i,
{
    if i < cols.len() {
        assert(cols.subrange(0, i + 1).drop_last() =~= cols.subrange(0, i));
        lemma_length_prefix(cols, n, i + 1);
    } else {
        assert(cols.subrange(0, i) =~= cols);
    }
}

proof fn lemma_type_prefix(cols: Seq<ArrayDataModel>, fs: Seq<FieldModel>, i: int)
    requires
        0 <= i <= cols.len(),
        first_type_mismatch(cols.subrange(0, i), fs) is Some,
    ensures
        first_type_mismatch(cols, fs) == first_type_mismatch(cols.subrange(0, i), fs),
    decreases cols.len() - i,
{
    if i < cols.len() {
        assert(cols.subrange(0, i + 1).drop_last() =~= cols.subrange(0, i));
        lemma_type_prefix(cols, fs, i + 1);
    } else {
        assert(cols.subrange(0, i) =~= cols);
    }
}

impl RecordBatch {
    #[verifier::type_invariant]
    spec fn inv(&self) -> bool {
        batch_ok(self@)
    }

    /// Builds a record batch after checking the columns against the schema;
    /// the error names the first rule broken, in the order of [`batch_error`].
    pub fn try_new(schema: Schema, columns: Vec<ArrayData>) -> (r: Result<RecordBatch, ArrowWasmError>)
        ensures
            match batch_error(schema@.fields, children_view(columns@)) {
                Some(e) => r == Err::<RecordBatch, ArrowWasmError>(ArrowWasmError::Schema(e)),
                None => r is Ok && r.unwrap()@ == (RecordBatchModel {
                    schema: schema@,
                    columns: children_view(columns@),
                    num_rows: children_view(columns@)[0].len,
                }),
            },
    {
        let ghost cols = children_view(columns@);
        let ghost fs = schema@.fields;
        proof {
            lemma_children_view_index(columns@);
            lemma_fields_view_len(schema.fields@);
            lemma_fields_view_index(schema.fields@);
        }
        if columns.len() != schema.fields.len() {
            return Err(
                ArrowWasmError::Schema(
                    SchemaError::ColumnCount { expected: schema.fields.len(), found: columns.len() },
                ),
            );
        }
        if columns.len() == 0 {
            return Err(ArrowWasmError::Schema(SchemaError::NoColumns));
        }
        let n = columns[0].len();
        let mut i: usize = 0;
        while i < columns.len()
            invariant
                i <= columns@.len(),
                cols == children_view(columns@),
                cols.len() == columns@.len(),
                forall|k: int| 0 <= k < columns@.len() ==> #[trigger] cols[k] == columns@[k]@,
                n == cols[0].len,
                columns@.len() > 0,
                columns@.len() == schema.fields@.len(),
                fs == fields_view(schema.fields@),
                fs.len() == schema.fields@.len(),
                first_length_mismatch(cols.subrange(0, i as int), n as nat) is None,
            decreases columns@.len() - i,
        {
            assert(cols.subrange(0, i as int + 1).drop_last() =~= cols.subrange(0, i as int));
            if columns[i].len() != n {
                proof {
                    assert(cols[i as int].len != n);
                    assert(cols.subrange(0, i as int + 1).last() == cols[i as int]);
                    assert(first_length_mismatch(cols.subrange(0, i as int + 1), n as nat) == Some(
                        i as nat,
                    ));
                    lemma_length_prefix(cols, n as nat, i as int + 1);
                    assert(first_length_mismatch(cols, cols[0].len) == Some(i as nat));
                    assert(cols.len() == fs.len());
                    assert(batch_error(fs, cols) == Some(SchemaError::ColumnLength { index: i }));
                }
                return Err(ArrowWasmError::Schema(SchemaError::ColumnLength { index: i }));
            }
            i += 1;
        }
        assert(cols.subrange(0, i as int) =~= cols);
        proof {
            lemma_length_none(cols, n as nat);
        }
        let mut j: usize = 0;
        while j < columns.len()
            invariant
                j <= columns@.len(),
                cols == children_view(columns@),
                cols.len() == columns@.len(),
                columns@.len() == schema.fields@.len(),
                fs == fields_view(schema.fields@),
                fs.len() == schema.fields@.len(),
                forall|k: int| 0 <= k < columns@.len() ==> #[trigger] cols[k] == columns@[k]@,
                forall|k: int| 0 <= k < fs.len() ==> #[trigger] fs[k] == schema.fields@[k]@,
                first_type_mismatch(cols.subrange(0, j as int), fs) is None,
                columns@.len() > 0,
                n == cols[0].len,
                forall|k: int| 0 <= k < cols.len() ==> #[trigger] cols[k].len == n,
            decreases columns@.len() - j,
        {
            assert(cols.subrange(0, j as int + 1).drop_last() =~= cols.subrange(0, j as int));
            if !data_type_eq(columns[j].data_type(), &schema.fields[j].data_type) {
                proof {
                    assert(cols[j as int].data_type != fs[j as int].data_type);
                    assert(cols.subrange(0, j as int + 1).last() == cols[j as int]);
                    assert(first_type_mismatch(cols.subrange(0, j as int + 1), fs) == Some(
                        j as nat,
                    ));
                    lemma_type_prefix(cols, fs, j as int + 1);
                    lemma_no_length_mismatch(cols, n as nat);
                    assert(first_length_mismatch(cols, cols[0].len) is None);
                }
                return Err(ArrowWasmError::Schema(SchemaError::ColumnType { index: j }));
            }
            j += 1;
        }
        assert(cols.subrange(0, j as int) =~= cols);
        Ok(RecordBatch { schema, columns, num_rows: n })
    }

    /// The number of rows, the length of every column.
    pub fn num_rows(&self) -> (r: usize)
        ensures
            r == self@.num_rows,
    {
        self.num_rows
    }

    /// The number of columns.
    pub fn num_columns(&self) -> (r: usize)
        ensures
            r == self@.columns.len(),
    {
        proof {
            lemma_children_view_index(self.columns@);
        }
        self.columns.len()
    }

    /// The schema.
    pub fn schema(&self) -> (r: &Schema)
        ensures
            r@ == self@.schema,
    {
        &self.schema
    }

    /// The column at position `i`.
    pub fn column(&self, i: usize) -> (r: &ArrayData)
        requires
            i < self@.columns.len(),
        ensures
            r@ == self@.columns[i as int],
    {
        proof {
            lemma_children_view_index(self.columns@);
        }
        &self.columns[i]
    }

    /// The column of the first field named `name`, if there is one.
    pub fn column_by_name(&self, name: &str) -> (r: Option<&ArrayData>)
        ensures
            match index_of_name(self@.schema.fields, name@) {
                Some(i) => r is Some && r.unwrap()@ == self@.columns[i as int],
                None => r is None,
            },
    {
        proof {
            use_type_invariant(self);
            lemma_children_view_index(self.columns@);
            lemma_fields_view_len(self.schema.fields@);
            lemma_index_bound(self@.schema.fields, name@);
        }
        let ghost cols = children_view(self.columns@);
        // Makes the number of columns known to fit a machine word.
        let _ncols = self.columns.len();
        assert(cols.len() == self@.schema.fields.len());
        match self.schema.index_of(name) {
            Ok(i) => {
                assert(index_of_name(self@.schema.fields, name@) is Some);
                let ghost k = index_of_name(self@.schema.fields, name@).unwrap();
                assert(k < cols.len());
                assert(k == i);
                let c = &self.columns[i];
                assert(cols[i as int] == c@);
                Some(c)
            },
            Err(_) => None,
        }
    }

    /// The rows `offset..offset + length`: every column sliced alike.
    pub fn slice(self, offset: usize, length: usize) -> (r: RecordBatch)
        requires
            offset + length <= self@.num_rows,
        ensures
            r@.schema == self@.schema,
            r@.num_rows == length,
            r@.columns.len() == self@.columns.len(),
            forall|i: int|
                0 <= i < r@.columns.len() ==> #[trigger] r@.columns[i] == (ArrayDataModel {
                    offset: (self@.columns[i].offset + offset) as nat,
                    len: length as nat,
                    ..self@.columns[i]
                }),
    {
        proof {
            use_type_invariant(&self);
            lemma_children_view_index(self.columns@);
            lemma_length_none(children_view(self.columns@), self.num_rows as nat);
        }
        let ghost old_cols = children_view(self.columns@);
        let ghost fs = self@.schema.fields;
        let RecordBatch { schema, columns, num_rows } = self;
        let mut rest = columns;
        let mut reversed: Vec<ArrayData> = Vec::new();
        let ghost n = old_cols.len();
        while rest.len() > 0
            invariant
                n == old_cols.len(),
                rest@.len() <= n,
                reversed@.len() + rest@.len() == n,
                forall|k: int| 0 <= k < rest@.len() ==> #[trigger] rest@[k]@ == old_cols[k],
                forall|k: int| 0 <= k < n ==> old_cols[k].len == num_rows,
                offset + length <= num_rows,
                forall|k: int|
                    0 <= k < reversed@.len() ==> #[trigger] reversed@[k]@ == (ArrayDataModel {
                        offset: (old_cols[n - 1 - k].offset + offset) as nat,
                        len: length as nat,
                        ..old_cols[n - 1 - k]
                    }),
            decreases rest@.len(),
        {
            let c = rest.pop().unwrap();
            reversed.push(c.slice(offset, length));
        }
        let mut sliced: Vec<ArrayData> = Vec::new();
        while reversed.len() > 0
            invariant
                n == old_cols.len(),
                reversed@.len() + sliced@.len() == n,
                forall|k: int|
                    0 <= k < reversed@.len() ==> #[trigger] reversed@[k]@ == (ArrayDataModel {
                        offset: (old_cols[n - 1 - k].offset + offset) as nat,
                        len: length as nat,
                        ..old_cols[n - 1 - k]
                    }),
                forall|k: int|
                    0 <= k < sliced@.len() ==> #[trigger] sliced@[k]@ == (ArrayDataModel {
                        offset: (old_cols[k].offset + offset) as nat,
                        len: length as nat,
                        ..old_cols[k]
                    }),
            decreases reversed@.len(),
        {
            let c = reversed.pop().unwrap();
            sliced.push(c);
        }
        proof {
            lemma_children_view_index(sliced@);
            let cols = children_view(sliced@);
            assert(cols.len() == fs.len());
            assert(first_length_mismatch(cols, cols[0].len) is None) by {
                lemma_no_length_mismatch(cols, length as nat);
            }
            assert(first_type_mismatch(cols, fs) == first_type_mismatch(old_cols, fs)) by {
                lemma_same_types(cols, old_cols, fs);
            }
        }
        RecordBatch { schema, columns: sliced, num_rows: length }
    }

    /// Turns the batch into one struct array whose children are its columns,
    /// in the order of the schema: the form in which a batch is exported.
    /// The batch is consumed.
    pub fn into_struct_data(self) -> (r: ArrayData)
        ensures
            r@ == (ArrayDataModel {
                data_type: LogicalType::Struct(self@.schema.fields),
                len: self@.num_rows,
                offset: 0,
                nulls: None,
                buffers: Seq::empty(),
                children: self@.columns,
            }),
    {
        proof {
            use_type_invariant(&self);
            lemma_children_view_index(self.columns@);
            lemma_fields_view_len(self.schema.fields@);
        }
        // Makes the first column's layout rules, and so its length bound, known.
        let _first = self.columns[0].len();
        let RecordBatch { schema, columns, num_rows } = self;
        ArrayData::new_struct(schema.fields, num_rows, columns)
    }

    /// Exports the batch without consuming it: `export` borrows it and makes
    /// the schema struct and the array struct.
    pub fn to_ffi<S, A, F: Fn(&RecordBatch) -> (S, A)>(&self, export: F) -> (r: FFIData<S, A>)
        requires
            export.requires((self,)),
        ensures
            export.ensures((self,), (r.schema, r.array)),
    {
        let (schema, array) = export(self);
        FFIData::new(array, schema)
    }

    /// Exports the batch and consumes it: its struct form (see
    /// [`RecordBatch::into_struct_data`]) is handed over to `export`, which
    /// makes the schema struct and the array struct.
    pub fn into_ffi<S, A, F: Fn(ArrayData) -> (S, A)>(self, export: F) -> (r: FFIData<S, A>)
        requires
            forall|d: ArrayData| #[trigger] export.requires((d,)),
        ensures
            exists|d: ArrayData|
                #[trigger] export.ensures((d,), (r.schema, r.array)) && d@ == struct_data_of(self@),
    {
        let ghost model = self@;
        let d = self.into_struct_data();
        let ghost dg = d;
        let (schema, array) = export(d);
        let r = FFIData::new(array, schema);
        assert(export.ensures((dg,), (r.schema, r.array)) && dg@ == struct_data_of(model));
        r
    }

    /// Splits a record batch into its schema and columns.
    pub fn into_parts(self) -> (r: (Schema, Vec<ArrayData>))
        ensures
            r.0@ == self@.schema,
            children_view(r.1@) == self@.columns,
    {
        (self.schema, self.columns)
    }
}

proof fn lemma_index_bound(fs: Seq<FieldModel>, name: Seq<char>)
    ensures
        index_of_name(fs, name) matches Some(i) ==> i < fs.len(),
    decreases fs.len(),
{
    if fs.len() > 0 {
        lemma_index_bound(fs.drop_last(), name);
    }
}

proof fn lemma_length_none(cols: Seq<ArrayDataModel>, n: nat)
    requires
        first_length_mismatch(cols, n) is None,
    ensures
        forall|k: int| 0 <= k < cols.len() ==> #[trigger] cols[k].len == n,
    decreases cols.len(),
{
    if cols.len() > 0 {
        lemma_length_none(cols.drop_last(), n);
        assert forall|k: int| 0 <= k < cols.len() implies #[trigger] cols[k].len == n by {
            if k < cols.len() - 1 {
                assert(cols.drop_last()[k] == cols[k]);
            }
        }
    }
}

proof fn lemma_no_length_mismatch(cols: Seq<ArrayDataModel>, n: nat)
    requires
        forall|k: int| 0 <= k < cols.len() ==> #[trigger] cols[k].len == n,
    ensures
        first_length_mismatch(cols, n) is None,
    decreases cols.len(),
{
    if cols.len() > 0 {
        lemma_no_length_mismatch(cols.drop_last(), n);
    }
}

proof fn lemma_same_types(a: Seq<ArrayDataModel>, b: Seq<ArrayDataModel>, fs: Seq<FieldModel>)
    requires
        a.len() == b.len(),
        forall|k: int| 0 <= k < a.len() ==> #[trigger] a[k].data_type == b[k].data_type,
    ensures
        first_type_mismatch(a, fs) == first_type_mismatch(b, fs),
    decreases a.len(),
{
    if a.len() > 0 {
        lemma_same_types(a.drop_last(), b.drop_last(), fs);
    }
}

/// The struct array that a batch is exported as.
pub open spec fn struct_data_of(b: RecordBatchModel) -> ArrayDataModel {
    ArrayDataModel {
        data_type: LogicalType::Struct(b.schema.fields),
        len: b.num_rows,
        offset: 0,
        nulls: None,
        buffers: Seq::empty(),
        children: b.columns,
    }
}

} // verus!
