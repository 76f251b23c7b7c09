use arrow_wasm::array_data::ArrayData;
use arrow_wasm::buffer::{encode_buffer, Buffer};
use arrow_wasm::datatype::{DataType, Field, IntervalUnit, TimeUnit};
use arrow_wasm::js_data::import_data;
use arrow_wasm::js_export::{export_data, export_data_type};
use arrow_wasm::js_type::import_data_type;
use arrow_wasm::typed_array::TypedArray;

fn same(a: &ArrayData, b: &ArrayData) -> bool {
    format!("{:?}", a) == format!("{:?}", b)
}

#[test]
fn int32_with_nulls_round_trips() {
    let source = ArrayData::try_new(
        DataType::Int32,
        3,
        Some(vec![0b101]),
        0,
        vec![Buffer::Words32(vec![1, 0, (-3i32) as u32])],
        vec![],
    )
    .unwrap();
    let described = export_data(&source).unwrap();
    let back = import_data(&described).unwrap();
    assert!(same(&source, &back));
    assert!(back.is_null(1));
    assert_eq!(back.null_count(), 1);
    match back.to_typed_array().unwrap() {
        TypedArray::Int32(v) => assert_eq!(v, vec![1, 0, -3]),
        other => panic!("unexpected {:?}", other),
    }
}

#[test]
fn strings_and_structs_round_trip() {
    let strings = ArrayData::try_new(
        DataType::Utf8,
        2,
        None,
        0,
        vec![Buffer::Offsets32(vec![0, 2, 5]), Buffer::Bytes(b"abcde".to_vec())],
        vec![],
    )
    .unwrap();
    let numbers = ArrayData::try_new(
        DataType::Interval(IntervalUnit::MonthDayNano),
        2,
        None,
        0,
        vec![Buffer::MonthDayNano(vec![(1, -2, 3), (-4, 5, i64::MIN)])],
        vec![],
    )
    .unwrap();
    let fields = vec![
        Field::new("s".to_string(), DataType::Utf8, true),
        Field::new("n".to_string(), DataType::Interval(IntervalUnit::MonthDayNano), false),
    ];
    let source = ArrayData::new_struct(fields, 2, vec![strings, numbers]);
    let back = import_data(&export_data(&source).unwrap()).unwrap();
    assert!(same(&source, &back));
    assert_eq!(back.child_data()[0].binary_value(1).unwrap(), b"cde".to_vec());
}

#[test]
fn wide_decimals_round_trip() {
    let source = ArrayData::try_new(
        DataType::Decimal256(50, 3),
        1,
        None,
        0,
        vec![Buffer::Words256(vec![(u128::MAX, 7)])],
        vec![],
    )
    .unwrap();
    let back = import_data(&export_data(&source).unwrap()).unwrap();
    assert!(same(&source, &back));
    let bytes = encode_buffer(&Buffer::Words16(vec![0x1234]));
    assert_eq!(bytes, vec![0x34, 0x12]);
}

#[test]
fn types_without_host_form_are_not_exported() {
    assert!(export_data_type(&DataType::LargeUtf8).is_none());
    assert!(export_data_type(&DataType::Time32(TimeUnit::Nanosecond)).is_none());
    let t = export_data_type(&DataType::Timestamp(TimeUnit::Second, Some("UTC".to_string()))).unwrap();
    assert!(matches!(import_data_type(&t).unwrap(), DataType::Timestamp(TimeUnit::Second, Some(ref z)) if z == "UTC"));
    let empty_bitmap = ArrayData::try_new(DataType::Int32, 0, Some(vec![]), 0, vec![Buffer::Words32(vec![])], vec![]).unwrap();
    assert!(export_data(&empty_bitmap).is_none());
}
