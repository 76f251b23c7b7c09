use arrow_wasm::array_data::ArrayData;
use arrow_wasm::buffer::Buffer;
use arrow_wasm::data::Data;
use arrow_wasm::datatype::{data_type_eq, DataType, Field};
use arrow_wasm::error::{ArrowWasmError, SchemaError};
use arrow_wasm::ffi::{stream_next, stream_schema, FFIStream, StreamNext};
use arrow_wasm::js_batch::{import_record_batch, import_schema, import_table, JSRecordBatch, JSSchema, JSTable};
use arrow_wasm::js_data::{JSData, TypedArrayLike};
use arrow_wasm::js_type::{JSDataType, JSField};
use arrow_wasm::record_batch::RecordBatch;
use arrow_wasm::schema::Schema;
use arrow_wasm::table::Table;
use arrow_wasm::typed_array::TypedArray;
use arrow_wasm::vector::Vector;

fn view(bytes: Vec<u8>) -> TypedArrayLike {
    let n = bytes.len();
    TypedArrayLike { buffer: bytes, byte_offset: 0, byte_length: n }
}

fn leaf(t: JSDataType, length: usize, values: Vec<u8>) -> JSData {
    JSData {
        data_type: t,
        length,
        offset: 0,
        stride: 1,
        children: vec![],
        values: view(values),
        type_ids: view(vec![]),
        null_bitmap: None,
        value_offsets: view(vec![]),
    }
}

fn int32() -> JSDataType {
    JSDataType::Int { bit_width: 32, is_signed: true }
}

fn js_field(name: &str, t: JSDataType) -> JSField {
    JSField { name: name.to_string(), data_type: t, nullable: true, metadata: vec![] }
}

fn js_schema() -> JSSchema {
    JSSchema {
        fields: vec![js_field("a", int32()), js_field("b", JSDataType::Int { bit_width: 8, is_signed: false })],
        metadata: vec![("origin".to_string(), "test".to_string())],
    }
}

fn struct_type() -> JSDataType {
    JSDataType::Struct { children: vec![js_field("a", int32()), js_field("b", JSDataType::Int { bit_width: 8, is_signed: false })] }
}

fn js_batch(rows: usize) -> JSRecordBatch {
    let mut a = vec![];
    let mut b = vec![];
    for i in 0..rows {
        a.extend_from_slice(&(i as i32 * 10).to_le_bytes());
        b.push(i as u8);
    }
    let mut data = leaf(struct_type(), rows, vec![]);
    data.children = vec![leaf(int32(), rows, a), leaf(JSDataType::Int { bit_width: 8, is_signed: false }, rows, b)];
    JSRecordBatch { schema: js_schema(), data }
}

fn int32_data(values: &[i32]) -> ArrayData {
    let words: Vec<u32> = values.iter().map(|v| *v as u32).collect();
    ArrayData::try_new(DataType::Int32, values.len(), None, 0, vec![Buffer::Words32(words)], vec![]).unwrap()
}

#[test]
fn record_batch_from_host_descriptor() {
    let batch = import_record_batch(&js_batch(3)).unwrap();
    assert_eq!(batch.num_rows(), 3);
    assert_eq!(batch.num_columns(), 2);
    assert_eq!(batch.schema().metadata(), &vec![("origin".to_string(), "test".to_string())]);
    match batch.column_by_name("a").unwrap().to_typed_array().unwrap() {
        TypedArray::Int32(v) => assert_eq!(v, vec![0, 10, 20]),
        other => panic!("unexpected {:?}", other),
    }
    assert!(batch.column_by_name("zzz").is_none());
    let sliced = batch.slice(1, 2);
    assert_eq!(sliced.num_rows(), 2);
    match sliced.column(1).to_typed_array().unwrap() {
        TypedArray::Uint8(v) => assert_eq!(v, vec![1, 2]),
        other => panic!("unexpected {:?}", other),
    }
}

#[test]
fn record_batch_errors() {
    let mut b = js_batch(2);
    b.data = leaf(int32(), 0, vec![]);
    assert_eq!(import_record_batch(&b).unwrap_err(), ArrowWasmError::Schema(SchemaError::NotStruct));

    let mut b = js_batch(2);
    b.schema.fields.pop();
    assert_eq!(
        import_record_batch(&b).unwrap_err(),
        ArrowWasmError::Schema(SchemaError::ColumnCount { expected: 1, found: 2 })
    );

    let mut b = js_batch(2);
    b.schema.fields[1] = js_field("b", int32());
    assert_eq!(import_record_batch(&b).unwrap_err(), ArrowWasmError::Schema(SchemaError::ColumnType { index: 1 }));

    let mut b = js_batch(2);
    b.data.length = 3;
    assert_eq!(import_record_batch(&b).unwrap_err(), ArrowWasmError::Schema(SchemaError::ColumnLength { index: 0 }));

    let schema = Schema::new(vec![Field::new("a".to_string(), DataType::Int32, true), Field::new("b".to_string(), DataType::Int32, true)]
        , vec![]);
    let e = RecordBatch::try_new(schema, vec![int32_data(&[1, 2]), int32_data(&[1])]).unwrap_err();
    assert_eq!(e, ArrowWasmError::Schema(SchemaError::ColumnLength { index: 1 }));
    let e = RecordBatch::try_new(Schema::new(vec![], vec![]), vec![]).unwrap_err();
    assert_eq!(e, ArrowWasmError::Schema(SchemaError::NoColumns));
}

#[test]
fn schema_lookup_by_name() {
    let schema = import_schema(&js_schema()).unwrap();
    assert_eq!(schema.num_fields(), 2);
    assert_eq!(schema.index_of("b").unwrap(), 1);
    assert_eq!(schema.field_with_name("a").unwrap().name(), "a");
    assert_eq!(schema.index_of("c").unwrap_err(), ArrowWasmError::Schema(SchemaError::FieldNotFound));
    let renamed = schema.field(0).deep_clone().with_name("z".to_string());
    assert_eq!(renamed.name(), "z");
    assert!(data_type_eq(renamed.data_type(), &DataType::Int32));
}

#[test]
fn non_consuming_export_leaves_batch_usable() {
    let batch = import_record_batch(&js_batch(2)).unwrap();
    let exported = batch.to_ffi(|b: &RecordBatch| (b.num_columns(), b.num_rows()));
    assert_eq!(*exported.schema(), 2);
    assert_eq!(*exported.array(), 2);
    assert_eq!(batch.num_rows(), 2);
    let moved = batch.into_ffi(|d: ArrayData| (d.child_data().len(), d.len()));
    assert_eq!(moved.schema, 2);
    assert_eq!(moved.array, 2);
}

#[test]
fn consuming_batch_export_is_one_struct_array() {
    let batch = import_record_batch(&js_batch(4)).unwrap();
    let d = batch.into_struct_data();
    assert!(matches!(d.data_type(), DataType::Struct(fs) if fs.len() == 2));
    assert_eq!(d.len(), 4);
    assert!(d.buffers().is_empty());
    assert_eq!(d.child_data().len(), 2);
}

#[test]
fn table_export_has_one_schema_and_an_array_per_batch() {
    let table = import_table(&JSTable { schema: js_schema(), batches: vec![js_batch(1), js_batch(2), js_batch(3)] }).unwrap();
    assert_eq!(table.num_batches(), 3);
    assert_eq!(table.record_batch(2).unwrap().num_rows(), 3);
    assert!(table.record_batch(3).is_none());
    let stream = table.to_ffi("schema", |b: &RecordBatch| b.num_rows());
    assert_eq!(stream.num_arrays(), 3);
    assert_eq!(*stream.schema(), "schema");
    assert_eq!(*stream.array(1), 2);
    assert_eq!(table.num_batches(), 3);
    let owned = table.into_ffi(7u8, |b: RecordBatch| b.into_struct_data().len());
    assert_eq!(owned.num_arrays(), 3);
    assert_eq!(owned.arrays, vec![1, 2, 3]);
    owned.drop();
}

#[test]
fn empty_table_exports_only_a_schema() {
    let table = import_table(&JSTable { schema: js_schema(), batches: vec![] }).unwrap();
    let stream = table.to_ffi((), |b: &RecordBatch| b.num_rows());
    assert_eq!(stream.num_arrays(), 0);
}

#[test]
fn table_rejects_batch_with_other_fields() {
    let first = import_record_batch(&js_batch(1)).unwrap();
    let mut other = js_batch(1);
    other.schema.fields[0].name = "renamed".to_string();
    let second = import_record_batch(&other).unwrap();
    let schema = import_schema(&js_schema()).unwrap();
    let e = Table::try_new(schema, vec![first, second]).unwrap_err();
    assert_eq!(e, ArrowWasmError::Schema(SchemaError::BatchSchema { index: 1 }));
}

#[test]
fn stream_pull_decisions() {
    assert_eq!(stream_next(0, false).unwrap(), StreamNext::Array);
    assert_eq!(stream_next(0, true).unwrap(), StreamNext::End);
    assert_eq!(stream_next(5, false).unwrap_err(), ArrowWasmError::StreamProtocol(5));
    assert_eq!(stream_schema(0), Ok(()));
    assert_eq!(stream_schema(-3), Err(ArrowWasmError::StreamProtocol(-3)));
    let s: FFIStream<u8, u8> = FFIStream::from_chunks(1, &vec![1u8, 2, 3], |x: &u8| *x * 2);
    assert_eq!(s.arrays, vec![2, 4, 6]);
}

#[test]
fn vector_chunks_share_one_type() {
    assert_eq!(Vector::from_array_refs(vec![]).unwrap_err(), ArrowWasmError::Schema(SchemaError::NoColumns));
    let v = Vector::from_array_refs(vec![int32_data(&[1]), int32_data(&[2, 3])]).unwrap();
    assert!(matches!(v.data_type(), DataType::Int32));
    assert_eq!(v.chunks().len(), 2);
    assert_eq!(v.field().name(), "");
    let other = ArrayData::try_new(DataType::UInt8, 1, None, 0, vec![Buffer::Bytes(vec![1])], vec![]).unwrap();
    let e = Vector::from_array_refs(vec![int32_data(&[1]), other]).unwrap_err();
    assert_eq!(e, ArrowWasmError::Schema(SchemaError::ColumnType { index: 1 }));
}

#[test]
fn data_pairs_array_with_field() {
    let d = Data::from_array_ref(int32_data(&[4, 5]));
    assert!(d.field().is_nullable());
    assert!(matches!(d.field().data_type(), DataType::Int32));
    match d.to_typed_array().unwrap() {
        TypedArray::Int32(v) => assert_eq!(v, vec![4, 5]),
        other => panic!("unexpected {:?}", other),
    }
    let pair = d.to_ffi(|a: &ArrayData, f: &Field| (f.name().len(), a.len()));
    assert_eq!(pair.array, 2);
}
