use arrow_wasm::array_data::ArrayData;
use arrow_wasm::buffer::Buffer;
use arrow_wasm::datatype::{DataType, IntervalUnit, TimeUnit, UnionMode};
use arrow_wasm::error::{ArrayConstructionError, ArrowWasmError, BufferLayoutError, TypeDecodeError};
use arrow_wasm::js_data::{copy_null_bitmap, copy_typed_array_like, import_data, import_offsets, import_values, JSData, TypedArrayLike};
use arrow_wasm::js_type::{import_data_type, import_field, DateUnit, JSDataType, JSField, Precision, Type};
use arrow_wasm::typed_array::TypedArray;

fn view(bytes: Vec<u8>) -> TypedArrayLike {
    let n = bytes.len();
    TypedArrayLike { buffer: bytes, byte_offset: 0, byte_length: n }
}

fn empty() -> TypedArrayLike {
    view(vec![])
}

fn data(t: JSDataType, length: usize, values: TypedArrayLike) -> JSData {
    JSData {
        data_type: t,
        length,
        offset: 0,
        stride: 1,
        children: vec![],
        values,
        type_ids: empty(),
        null_bitmap: None,
        value_offsets: empty(),
    }
}

fn field(name: &str, t: JSDataType) -> JSField {
    JSField { name: name.to_string(), data_type: t, nullable: true, metadata: vec![] }
}

fn int32() -> JSDataType {
    JSDataType::Int { bit_width: 32, is_signed: true }
}

#[test]
fn misaligned_int32_view_decodes_little_endian() {
    let v = TypedArrayLike {
        buffer: vec![0x00, 1, 0, 0, 0, 2, 0, 0, 0, 3, 0, 0, 0],
        byte_offset: 1,
        byte_length: 12,
    };
    let d = data(int32(), 3, v);
    match import_values(&d, &DataType::Int32).unwrap() {
        Buffer::Words32(w) => assert_eq!(w, vec![1, 2, 3]),
        other => panic!("unexpected buffer {:?}", other),
    }
    let arr = import_data(&d).unwrap();
    match arr.to_typed_array().unwrap() {
        TypedArray::Int32(v) => assert_eq!(v, vec![1, 2, 3]),
        other => panic!("unexpected typed array {:?}", other),
    }
}

#[test]
fn five_bytes_as_int32_is_a_layout_error() {
    let d = data(int32(), 1, view(vec![1, 2, 3, 4, 5]));
    let e = import_values(&d, &DataType::Int32).unwrap_err();
    assert_eq!(
        e,
        ArrowWasmError::BufferLayout(BufferLayoutError::NotDivisible { byte_length: 5, width: 4 })
    );
    assert_eq!(import_data(&d).unwrap_err(), e);
}

#[test]
fn empty_null_bitmap_means_no_nulls() {
    let mut d = data(int32(), 2, view(vec![1, 0, 0, 0, 2, 0, 0, 0]));
    d.null_bitmap = Some(empty());
    assert!(copy_null_bitmap(&d).unwrap().is_none());
    let arr = import_data(&d).unwrap();
    assert!(arr.nulls().is_none());
    assert_eq!(arr.null_count(), 0);
}

#[test]
fn utf8_values_split_by_offsets() {
    let mut d = data(JSDataType::Utf8, 2, view(b"abcde".to_vec()));
    d.value_offsets = view(vec![0, 0, 0, 0, 2, 0, 0, 0, 5, 0, 0, 0]);
    let arr = import_data(&d).unwrap();
    assert_eq!(arr.len(), 2);
    assert_eq!(arr.buffers().len(), 2);
    assert_eq!(arr.binary_value(0).unwrap(), b"ab".to_vec());
    assert_eq!(arr.binary_value(1).unwrap(), b"cde".to_vec());
}

#[test]
fn nested_nodes_have_no_buffers() {
    let mut s = data(JSDataType::Struct { children: vec![field("a", int32())] }, 1, empty());
    s.children = vec![data(int32(), 1, view(vec![7, 0, 0, 0]))];
    let arr = import_data(&s).unwrap();
    assert!(arr.buffers().is_empty());
    assert_eq!(arr.child_data().len(), 1);

    let mut l = data(
        JSDataType::FixedSizeList { list_size: 2, children: vec![field("item", int32())] },
        1,
        view(vec![9, 9, 9]),
    );
    l.children = vec![data(int32(), 2, view(vec![1, 0, 0, 0, 2, 0, 0, 0]))];
    let arr = import_data(&l).unwrap();
    assert!(arr.buffers().is_empty());

    let b = data(JSDataType::FixedSizeBinary { byte_width: 2 }, 2, view(vec![1, 2, 3, 4]));
    let arr = import_data(&b).unwrap();
    assert!(arr.buffers().is_empty());
}

#[test]
fn integer_types_by_width_and_sign() {
    let cases = [
        (8u8, true, DataType::Int8),
        (16, true, DataType::Int16),
        (32, true, DataType::Int32),
        (64, true, DataType::Int64),
        (8, false, DataType::UInt8),
        (16, false, DataType::UInt16),
        (32, false, DataType::UInt32),
        (64, false, DataType::UInt64),
    ];
    for (bit_width, is_signed, expected) in cases {
        let t = import_data_type(&JSDataType::Int { bit_width, is_signed }).unwrap();
        assert_eq!(format!("{:?}", t), format!("{:?}", expected));
    }
    assert_eq!(
        import_data_type(&JSDataType::Int { bit_width: 24, is_signed: true }).unwrap_err(),
        ArrowWasmError::TypeDecode(TypeDecodeError::IntWidth { bit_width: 24, is_signed: true })
    );
}

#[test]
fn placeholder_type_is_rejected() {
    assert_eq!(JSDataType::NONE.type_id(), Type::NONE);
    assert_eq!(
        import_data_type(&JSDataType::NONE).unwrap_err(),
        ArrowWasmError::TypeDecode(TypeDecodeError::PlaceholderType)
    );
}

#[test]
fn parameterised_types() {
    let t = import_data_type(&JSDataType::Float { precision: Precision::Half }).unwrap();
    assert!(matches!(t, DataType::Float16));
    let t = import_data_type(&JSDataType::Decimal { bit_width: 256, precision: 40, scale: -2 }).unwrap();
    assert!(matches!(t, DataType::Decimal256(40, -2)));
    assert_eq!(
        import_data_type(&JSDataType::Decimal { bit_width: 64, precision: 5, scale: 0 }).unwrap_err(),
        ArrowWasmError::TypeDecode(TypeDecodeError::DecimalWidth { bit_width: 64 })
    );
    let t = import_data_type(&JSDataType::Date { unit: DateUnit::Millisecond }).unwrap();
    assert!(matches!(t, DataType::Date64));
    let t = import_data_type(&JSDataType::Time { unit: TimeUnit::Millisecond }).unwrap();
    assert!(matches!(t, DataType::Time32(TimeUnit::Millisecond)));
    let t = import_data_type(&JSDataType::Time { unit: TimeUnit::Nanosecond }).unwrap();
    assert!(matches!(t, DataType::Time64(TimeUnit::Nanosecond)));
    let t = import_data_type(&JSDataType::Timestamp {
        unit: TimeUnit::Microsecond,
        timezone: Some("Europe/Paris".to_string()),
    })
    .unwrap();
    match t {
        DataType::Timestamp(TimeUnit::Microsecond, Some(tz)) => assert_eq!(tz, "Europe/Paris"),
        other => panic!("unexpected {:?}", other),
    }
    let t = import_data_type(&JSDataType::Interval { unit: IntervalUnit::MonthDayNano }).unwrap();
    assert!(matches!(t, DataType::Interval(IntervalUnit::MonthDayNano)));
    let t = import_data_type(&JSDataType::Duration { unit: TimeUnit::Second }).unwrap();
    assert!(matches!(t, DataType::Duration(TimeUnit::Second)));
}

#[test]
fn list_needs_exactly_one_child() {
    let t = import_data_type(&JSDataType::List { children: vec![field("item", JSDataType::Utf8)] }).unwrap();
    match t {
        DataType::List(f) => {
            assert_eq!(f.name, "item");
            assert!(matches!(f.data_type, DataType::Utf8));
        }
        other => panic!("unexpected {:?}", other),
    }
    assert_eq!(
        import_data_type(&JSDataType::Map_ { keys_sorted: false, children: vec![] }).unwrap_err(),
        ArrowWasmError::TypeDecode(TypeDecodeError::ChildCount { found: 0 })
    );
}

#[test]
fn union_type_ids_are_checked() {
    let members = || vec![field("a", int32()), field("b", JSDataType::Utf8)];
    let t = import_data_type(&JSDataType::Union { mode: UnionMode::Dense, type_ids: vec![3, 1], children: members() }).unwrap();
    match t {
        DataType::Union(m, UnionMode::Dense) => {
            assert_eq!(m.len(), 2);
            assert_eq!(m[0].0, 3);
            assert_eq!(m[0].1.name, "a");
            assert_eq!(m[1].0, 1);
            assert_eq!(m[1].1.name, "b");
        }
        other => panic!("unexpected {:?}", other),
    }
    assert_eq!(
        import_data_type(&JSDataType::Union { mode: UnionMode::Sparse, type_ids: vec![1, 200], children: members() }).unwrap_err(),
        ArrowWasmError::TypeDecode(TypeDecodeError::UnionTypeId { type_id: 200 })
    );
    assert_eq!(
        import_data_type(&JSDataType::Union { mode: UnionMode::Sparse, type_ids: vec![4, 4], children: members() }).unwrap_err(),
        ArrowWasmError::TypeDecode(TypeDecodeError::DuplicateUnionTypeId { type_id: 4 })
    );
    assert_eq!(
        import_data_type(&JSDataType::Union { mode: UnionMode::Sparse, type_ids: vec![0], children: members() }).unwrap_err(),
        ArrowWasmError::TypeDecode(TypeDecodeError::UnionArity { type_ids: 1, children: 2 })
    );
}

#[test]
fn union_data_has_no_import() {
    let t = JSDataType::Union { mode: UnionMode::Sparse, type_ids: vec![0], children: vec![field("a", int32())] };
    let mut d = data(t, 1, empty());
    d.children = vec![data(int32(), 1, view(vec![1, 0, 0, 0]))];
    assert_eq!(
        import_data(&d).unwrap_err(),
        ArrowWasmError::ArrayConstruction(ArrayConstructionError::UnsupportedType)
    );
}

#[test]
fn field_metadata_is_kept() {
    let mut f = field("x", JSDataType::Bool);
    f.metadata = vec![("k".to_string(), "v".to_string())];
    let out = import_field(&f).unwrap();
    assert_eq!(out.name(), "x");
    assert!(out.is_nullable());
    assert_eq!(out.metadata(), &vec![("k".to_string(), "v".to_string())]);
    assert!(matches!(out.data_type(), DataType::Boolean));
}

#[test]
fn little_endian_widths() {
    let d = data(JSDataType::Int { bit_width: 16, is_signed: false }, 1, view(vec![0x34, 0x12]));
    match import_values(&d, &DataType::UInt16).unwrap() {
        Buffer::Words16(w) => assert_eq!(w, vec![0x1234]),
        other => panic!("unexpected {:?}", other),
    }
    let d = data(int32(), 1, view(vec![1, 2, 3, 4, 5, 6, 7, 8]));
    match import_values(&d, &DataType::Int64).unwrap() {
        Buffer::Words64(w) => assert_eq!(w, vec![0x0807_0605_0403_0201]),
        other => panic!("unexpected {:?}", other),
    }
    let mut bytes = vec![0u8; 32];
    bytes[0] = 5;
    bytes[16] = 6;
    let d = data(int32(), 1, view(bytes));
    match import_values(&d, &DataType::Decimal256(10, 0)).unwrap() {
        Buffer::Words256(w) => assert_eq!(w, vec![(5, 6)]),
        other => panic!("unexpected {:?}", other),
    }
    let mut bytes = vec![0xffu8; 16];
    bytes[0] = 0;
    let d = data(int32(), 1, view(bytes));
    match import_values(&d, &DataType::Decimal128(10, 0)).unwrap() {
        Buffer::Words128(w) => assert_eq!(w, vec![u128::MAX - 0xff]),
        other => panic!("unexpected {:?}", other),
    }
    let bytes = vec![2, 0, 0, 0, 0xff, 0xff, 0xff, 0xff, 10, 0, 0, 0, 0, 0, 0, 0];
    let d = data(int32(), 1, view(bytes));
    match import_values(&d, &DataType::Interval(IntervalUnit::MonthDayNano)).unwrap() {
        Buffer::MonthDayNano(w) => assert_eq!(w, vec![(2, -1, 10)]),
        other => panic!("unexpected {:?}", other),
    }
}

#[test]
fn offsets_by_type() {
    let mut d = data(JSDataType::Binary, 1, empty());
    d.value_offsets = view(vec![0, 0, 0, 0, 0xff, 0xff, 0xff, 0xff]);
    match import_offsets(&d, &DataType::Binary).unwrap() {
        Buffer::Offsets32(o) => assert_eq!(o, vec![0, -1]),
        other => panic!("unexpected {:?}", other),
    }
    match import_offsets(&d, &DataType::LargeUtf8).unwrap() {
        Buffer::Offsets64(o) => assert_eq!(o, vec![0xffff_ffff_0000_0000u64 as i64]),
        other => panic!("unexpected {:?}", other),
    }
    assert_eq!(
        import_offsets(&d, &DataType::Int32).unwrap_err(),
        ArrowWasmError::BufferLayout(BufferLayoutError::NoOffsets)
    );
    assert_eq!(
        import_values(&d, &DataType::Null).unwrap_err(),
        ArrowWasmError::BufferLayout(BufferLayoutError::NoValues)
    );
}

#[test]
fn view_past_its_buffer_is_rejected() {
    let v = TypedArrayLike { buffer: vec![1, 2, 3], byte_offset: 2, byte_length: 2 };
    assert_eq!(
        copy_typed_array_like(&v).unwrap_err(),
        ArrowWasmError::BufferLayout(BufferLayoutError::ViewOutOfBounds)
    );
    let v = TypedArrayLike { buffer: vec![1, 2, 3], byte_offset: 1, byte_length: 2 };
    assert_eq!(copy_typed_array_like(&v).unwrap(), vec![2, 3]);
}

#[test]
fn null_bitmap_counts_clear_bits() {
    let mut d = data(int32(), 3, view(vec![1, 0, 0, 0, 2, 0, 0, 0, 3, 0, 0, 0]));
    d.null_bitmap = Some(view(vec![0b0000_0101]));
    let arr = import_data(&d).unwrap();
    assert_eq!(arr.null_count(), 1);
    assert!(!arr.is_null(0));
    assert!(arr.is_null(1));
    assert!(!arr.is_null(2));
}

#[test]
fn construction_errors() {
    let short = data(int32(), 3, view(vec![1, 0, 0, 0]));
    assert_eq!(
        import_data(&short).unwrap_err(),
        ArrowWasmError::ArrayConstruction(ArrayConstructionError::BufferTooShort { index: 0 })
    );
    let mut d = data(int32(), 9, view(vec![0; 36]));
    d.null_bitmap = Some(view(vec![0xff]));
    assert_eq!(
        import_data(&d).unwrap_err(),
        ArrowWasmError::ArrayConstruction(ArrayConstructionError::NullBitmapTooShort)
    );
    let s = data(JSDataType::Struct { children: vec![field("a", int32())] }, 0, empty());
    assert_eq!(
        import_data(&s).unwrap_err(),
        ArrowWasmError::ArrayConstruction(ArrayConstructionError::ChildCount { expected: 1, found: 0 })
    );
    let e = ArrayData::try_new(DataType::Int32, 0, None, 0, vec![], vec![]).unwrap_err();
    assert_eq!(e, ArrowWasmError::ArrayConstruction(ArrayConstructionError::BufferCount { expected: 1, found: 0 }));
    let e = ArrayData::try_new(DataType::Int32, 0, None, 0, vec![Buffer::Bytes(vec![])], vec![]).unwrap_err();
    assert_eq!(e, ArrowWasmError::ArrayConstruction(ArrayConstructionError::BufferKind { index: 0 }));
    let e = ArrayData::try_new(DataType::Null, 1, None, usize::MAX, vec![], vec![]).unwrap_err();
    assert_eq!(e, ArrowWasmError::ArrayConstruction(ArrayConstructionError::LengthOverflow));
}

#[test]
fn typed_arrays_of_primitive_data_only() {
    let d = data(JSDataType::Int { bit_width: 8, is_signed: true }, 2, view(vec![0xff, 0x7f]));
    match import_data(&d).unwrap().to_typed_array().unwrap() {
        TypedArray::Int8(v) => assert_eq!(v, vec![-1, 127]),
        other => panic!("unexpected {:?}", other),
    }
    let d = data(JSDataType::Float { precision: Precision::Single }, 1, view(1.5f32.to_le_bytes().to_vec()));
    match import_data(&d).unwrap().to_typed_array().unwrap() {
        TypedArray::Float32(v) => assert_eq!(f32::from_bits(v[0]), 1.5),
        other => panic!("unexpected {:?}", other),
    }
    let d = data(JSDataType::Bool, 1, view(vec![1]));
    assert_eq!(import_data(&d).unwrap().to_typed_array().unwrap_err(), ArrowWasmError::NoTypedArray);
}

#[test]
fn sliced_array_keeps_buffers() {
    let d = data(int32(), 3, view(vec![1, 0, 0, 0, 2, 0, 0, 0, 3, 0, 0, 0]));
    let arr = import_data(&d).unwrap().slice(1, 2);
    assert_eq!(arr.offset(), 1);
    assert_eq!(arr.len(), 2);
    match arr.to_typed_array().unwrap() {
        TypedArray::Int32(v) => assert_eq!(v, vec![2, 3]),
        other => panic!("unexpected {:?}", other),
    }
}
