use std::sync::Arc;

use arrow_array::cast::AsArray;
use arrow_array::types::{
    Float32Type, Float64Type, Int16Type, Int32Type, Int64Type, Int8Type, UInt16Type, UInt32Type,
    UInt64Type, UInt8Type,
};
use arrow_array::{
    Array, ArrayRef, BinaryArray, BooleanArray, Float32Array, Float64Array, Int16Array, Int32Array,
    Int64Array, Int8Array, LargeBinaryArray, LargeStringArray, ListArray, NullArray, StringArray,
    StructArray, UInt16Array, UInt32Array, UInt64Array, UInt8Array,
};
use arrow_buffer::{NullBuffer, OffsetBuffer};
use arrow_schema::DataType as Arrow;
use arrow_udf_python::arrow::ArrowArray;
use arrow_udf_python::decode::get_pyobject;
use arrow_udf_python::encode::build_array;
use arrow_udf_python::error::ConvertError;
use arrow_udf_python::types::{DataType, Field};
use arrow_udf_python::value::Value;

fn wrap<A: Array + 'static>(array: A) -> ArrowArray {
    ArrowArray { inner: Arc::new(array) }
}

fn decode_all(data_type: &DataType, array: &ArrowArray) -> Vec<Value> {
    (0..array.inner.len()).map(|i| get_pyobject(data_type, array, i).unwrap()).collect()
}

fn text(s: &str) -> Value {
    Value::Str(s.to_string())
}

fn point_type() -> DataType {
    DataType::Struct(vec![
        Field { name: "a".to_string(), data_type: DataType::Int32 },
        Field { name: "b".to_string(), data_type: DataType::Utf8 },
    ])
}

fn point(a: Value, b: Value) -> Value {
    Value::Struct(vec![("a".to_string(), a), ("b".to_string(), b)])
}

#[test]
fn int32_rows_decode_and_encode_back() {
    let original = Int32Array::from(vec![Some(1), None, Some(-5)]);
    let array = wrap(original.clone());
    let values = decode_all(&DataType::Int32, &array);
    assert_eq!(values, vec![Value::Int(1), Value::Null, Value::Int(-5)]);
    let encoded = build_array(&DataType::Int32, &values).unwrap();
    assert_eq!(encoded.inner.as_primitive::<Int32Type>(), &original);
    assert_eq!(encoded.inner.is_null(0), false);
    assert_eq!(encoded.inner.is_null(1), true);
    assert_eq!(encoded.inner.is_null(2), false);
}

#[test]
fn list_rows_share_one_child_array() {
    let data_type = DataType::List(Box::new(DataType::Int32));
    let rows = vec![
        Value::List(vec![Value::Int(1), Value::Int(2)]),
        Value::Null,
        Value::List(vec![]),
    ];
    let encoded = build_array(&data_type, &rows).unwrap();
    let list = encoded.inner.as_list::<i32>();
    assert_eq!(list.value_offsets(), &[0, 2, 2, 2]);
    assert_eq!(
        (0..3).map(|i| list.is_null(i)).collect::<Vec<bool>>(),
        vec![false, true, false]
    );
    assert_eq!(list.values().as_primitive::<Int32Type>(), &Int32Array::from(vec![1, 2]));
    assert_eq!(decode_all(&data_type, &encoded), rows);
}

#[test]
fn struct_rows_become_field_arrays() {
    let rows = vec![point(Value::Int(3), text("x")), Value::Null];
    let encoded = build_array(&point_type(), &rows).unwrap();
    let array = encoded.inner.as_struct();
    assert_eq!(array.num_columns(), 2);
    assert_eq!(array.column_names(), vec!["a", "b"]);
    assert_eq!(array.column(0).as_primitive::<Int32Type>(), &Int32Array::from(vec![Some(3), None]));
    assert_eq!(array.column(1).as_string::<i32>(), &StringArray::from(vec![Some("x"), None]));
    assert_eq!((0..2).map(|i| array.is_null(i)).collect::<Vec<bool>>(), vec![false, true]);
    assert_eq!(decode_all(&point_type(), &encoded), rows);
}

#[test]
fn null_struct_row_does_not_decide_its_fields() {
    let fields = vec![
        arrow_schema::Field::new("a", arrow_schema::DataType::Int32, true),
        arrow_schema::Field::new("b", arrow_schema::DataType::Utf8, true),
    ];
    let a: ArrayRef = Arc::new(Int32Array::from(vec![Some(1), None, Some(3)]));
    let b: ArrayRef = Arc::new(StringArray::from(vec![Some("p"), Some("q"), Some("r")]));
    let validity = NullBuffer::from(vec![false, true, true]);
    let array = wrap(StructArray::new(fields.into(), vec![a, b], Some(validity)));
    assert_eq!(array.inner.as_struct().column(0).is_null(0), false);
    assert_eq!(
        decode_all(&point_type(), &array),
        vec![Value::Null, point(Value::Null, text("q")), point(Value::Int(3), text("r"))]
    );
}

#[test]
fn null_field_value_leaves_struct_row_valid() {
    let rows = vec![point(Value::Null, text("only b")), point(Value::Int(1), Value::Null)];
    let encoded = build_array(&point_type(), &rows).unwrap();
    let array = encoded.inner.as_struct();
    assert_eq!(array.is_null(0), false);
    assert_eq!(array.is_null(1), false);
    assert_eq!(array.column(0).is_null(0), true);
    assert_eq!(array.column(1).is_null(1), true);
    assert_eq!(decode_all(&point_type(), &encoded), rows);
}

#[test]
fn null_rows_are_null_for_every_type() {
    let types = vec![
        DataType::Null,
        DataType::Boolean,
        DataType::Int8,
        DataType::Int16,
        DataType::Int32,
        DataType::Int64,
        DataType::UInt8,
        DataType::UInt16,
        DataType::UInt32,
        DataType::UInt64,
        DataType::Float32,
        DataType::Float64,
        DataType::Utf8,
        DataType::Binary,
        DataType::Json,
        DataType::Decimal,
        DataType::List(Box::new(DataType::Utf8)),
        point_type(),
    ];
    for data_type in types {
        let encoded = build_array(&data_type, &[Value::Null, Value::Null]).unwrap();
        assert_eq!(encoded.inner.len(), 2);
        assert_eq!(encoded.inner.logical_nulls().unwrap().null_count(), 2);
        assert_eq!(decode_all(&data_type, &encoded), vec![Value::Null, Value::Null]);
    }
}

#[test]
fn native_values_come_back_unchanged() {
    let cases = vec![
        (DataType::Boolean, Value::Bool(true)),
        (DataType::Int8, Value::Int(-128)),
        (DataType::Int16, Value::Int(32767)),
        (DataType::Int32, Value::Int(-2147483648)),
        (DataType::Int64, Value::Int(9223372036854775807)),
        (DataType::UInt8, Value::Int(255)),
        (DataType::UInt16, Value::Int(65535)),
        (DataType::UInt32, Value::Int(4294967295)),
        (DataType::UInt64, Value::Int(18446744073709551615)),
        (DataType::Float32, Value::Float32(1.5f32.to_bits())),
        (DataType::Float64, Value::Float64((-0.25f64).to_bits())),
        (DataType::Utf8, text("héllo")),
        (DataType::Binary, Value::Bytes(vec![0, 255, 7])),
        (DataType::Json, Value::Json("{\"k\": [1, 2]}".to_string())),
        (DataType::Decimal, Value::Decimal("-12.3400".to_string())),
    ];
    for (data_type, value) in cases {
        let encoded = build_array(&data_type, std::slice::from_ref(&value)).unwrap();
        assert_eq!(encoded.inner.len(), 1);
        assert_eq!(get_pyobject(&data_type, &encoded, 0).unwrap(), value);
    }
}

#[test]
fn encoded_leaf_arrays_hold_the_values() {
    let b = build_array(&DataType::Boolean, &[Value::Bool(true), Value::Null, Value::Bool(false)]);
    assert_eq!(b.unwrap().inner.as_boolean(), &BooleanArray::from(vec![Some(true), None, Some(false)]));
    let ints = [Value::Int(7), Value::Null, Value::Int(100)];
    let a = build_array(&DataType::Int8, &ints).unwrap();
    assert_eq!(a.inner.as_primitive::<Int8Type>(), &Int8Array::from(vec![Some(7), None, Some(100)]));
    let a = build_array(&DataType::Int16, &ints).unwrap();
    assert_eq!(a.inner.as_primitive::<Int16Type>(), &Int16Array::from(vec![Some(7), None, Some(100)]));
    let a = build_array(&DataType::Int64, &ints).unwrap();
    assert_eq!(a.inner.as_primitive::<Int64Type>(), &Int64Array::from(vec![Some(7), None, Some(100)]));
    let a = build_array(&DataType::UInt8, &ints).unwrap();
    assert_eq!(a.inner.as_primitive::<UInt8Type>(), &UInt8Array::from(vec![Some(7), None, Some(100)]));
    let a = build_array(&DataType::UInt16, &ints).unwrap();
    assert_eq!(a.inner.as_primitive::<UInt16Type>(), &UInt16Array::from(vec![Some(7), None, Some(100)]));
    let a = build_array(&DataType::UInt32, &ints).unwrap();
    assert_eq!(a.inner.as_primitive::<UInt32Type>(), &UInt32Array::from(vec![Some(7), None, Some(100)]));
    let a = build_array(&DataType::UInt64, &ints).unwrap();
    assert_eq!(a.inner.as_primitive::<UInt64Type>(), &UInt64Array::from(vec![Some(7), None, Some(100)]));
    let singles = [Value::Float32(1.5f32.to_bits()), Value::Null, Value::Float32((-2.0f32).to_bits())];
    let a = build_array(&DataType::Float32, &singles).unwrap();
    assert_eq!(
        a.inner.as_primitive::<Float32Type>(),
        &Float32Array::from(vec![Some(1.5), None, Some(-2.0)])
    );
    let doubles = [Value::Float64(0.1f64.to_bits()), Value::Null];
    let a = build_array(&DataType::Float64, &doubles).unwrap();
    assert_eq!(a.inner.as_primitive::<Float64Type>(), &Float64Array::from(vec![Some(0.1), None]));
    let a = build_array(&DataType::Utf8, &[text("ab"), Value::Null, text("")]).unwrap();
    assert_eq!(a.inner.as_string::<i32>(), &StringArray::from(vec![Some("ab"), None, Some("")]));
    let a = build_array(&DataType::Binary, &[Value::Bytes(vec![1, 2]), Value::Null]).unwrap();
    assert_eq!(a.inner.as_binary::<i32>(), &BinaryArray::from(vec![Some(&[1u8, 2][..]), None]));
    let a = build_array(&DataType::Json, &[Value::Json("[1]".to_string()), Value::Null]).unwrap();
    assert_eq!(a.inner.as_string::<i64>(), &LargeStringArray::from(vec![Some("[1]"), None]));
    let a = build_array(&DataType::Decimal, &[Value::Decimal("1.50".to_string()), Value::Null]).unwrap();
    assert_eq!(
        a.inner.as_binary::<i64>(),
        &LargeBinaryArray::from(vec![Some(&b"1.50"[..]), None])
    );
    let a = build_array(&DataType::Null, &[Value::Null, Value::Int(3)]).unwrap();
    assert_eq!(a.inner.data_type(), &arrow_schema::DataType::Null);
    assert_eq!(a.inner.len(), 2);
}

#[test]
fn leaf_arrays_decode_to_their_values() {
    let a = wrap(BooleanArray::from(vec![Some(false), None, Some(true)]));
    assert_eq!(decode_all(&DataType::Boolean, &a), vec![Value::Bool(false), Value::Null, Value::Bool(true)]);
    let expected = vec![Value::Int(9), Value::Null, Value::Int(11)];
    let a = wrap(Int8Array::from(vec![Some(9), None, Some(11)]));
    assert_eq!(decode_all(&DataType::Int8, &a), expected);
    let a = wrap(Int16Array::from(vec![Some(9), None, Some(11)]));
    assert_eq!(decode_all(&DataType::Int16, &a), expected);
    let a = wrap(Int64Array::from(vec![Some(9), None, Some(11)]));
    assert_eq!(decode_all(&DataType::Int64, &a), expected);
    let a = wrap(UInt8Array::from(vec![Some(9), None, Some(11)]));
    assert_eq!(decode_all(&DataType::UInt8, &a), expected);
    let a = wrap(UInt16Array::from(vec![Some(9), None, Some(11)]));
    assert_eq!(decode_all(&DataType::UInt16, &a), expected);
    let a = wrap(UInt32Array::from(vec![Some(9), None, Some(11)]));
    assert_eq!(decode_all(&DataType::UInt32, &a), expected);
    let a = wrap(UInt64Array::from(vec![Some(u64::MAX), None]));
    assert_eq!(decode_all(&DataType::UInt64, &a), vec![Value::Int(18446744073709551615), Value::Null]);
    let a = wrap(Float32Array::from(vec![Some(2.5), None]));
    assert_eq!(decode_all(&DataType::Float32, &a), vec![Value::Float32(0x4020_0000), Value::Null]);
    let a = wrap(Float64Array::from(vec![Some(2.5), None]));
    assert_eq!(
        decode_all(&DataType::Float64, &a),
        vec![Value::Float64(0x4004_0000_0000_0000), Value::Null]
    );
    let a = wrap(StringArray::from(vec![Some("one"), None, Some("three")]));
    assert_eq!(decode_all(&DataType::Utf8, &a), vec![text("one"), Value::Null, text("three")]);
    let a = wrap(BinaryArray::from(vec![Some(&[5u8, 6][..]), None]));
    assert_eq!(decode_all(&DataType::Binary, &a), vec![Value::Bytes(vec![5, 6]), Value::Null]);
    let a = wrap(LargeStringArray::from(vec![Some("{\"a\": null}"), None]));
    assert_eq!(
        decode_all(&DataType::Json, &a),
        vec![Value::Json("{\"a\": null}".to_string()), Value::Null]
    );
    let a = wrap(LargeBinaryArray::from(vec![Some(&b"3.14"[..]), None]));
    assert_eq!(
        decode_all(&DataType::Decimal, &a),
        vec![Value::Decimal("3.14".to_string()), Value::Null]
    );
    let a = wrap(NullArray::new(2));
    assert_eq!(decode_all(&DataType::Null, &a), vec![Value::Null, Value::Null]);
}

#[test]
fn list_array_decodes_by_its_offsets() {
    let child: ArrayRef = Arc::new(Int32Array::from(vec![Some(10), None, Some(30), Some(40)]));
    let field = Arc::new(arrow_schema::Field::new("item", arrow_schema::DataType::Int32, true));
    let offsets = OffsetBuffer::new(vec![1, 3, 3, 4].into());
    let validity = NullBuffer::from(vec![true, false, true]);
    let array = wrap(ListArray::new(field, offsets, child, Some(validity)));
    assert_eq!(
        decode_all(&DataType::List(Box::new(DataType::Int32)), &array),
        vec![Value::List(vec![Value::Null, Value::Int(30)]), Value::Null, Value::List(vec![Value::Int(40)])]
    );
}

#[test]
fn nested_values_come_back_unchanged() {
    let inner = DataType::Struct(vec![
        Field { name: "tags".to_string(), data_type: DataType::List(Box::new(DataType::Utf8)) },
        Field { name: "n".to_string(), data_type: DataType::UInt8 },
    ]);
    let data_type = DataType::List(Box::new(inner));
    let entry = |tags: Vec<&str>, n: i128| {
        Value::Struct(vec![
            ("tags".to_string(), Value::List(tags.into_iter().map(text).collect())),
            ("n".to_string(), Value::Int(n)),
        ])
    };
    let rows = vec![
        Value::List(vec![entry(vec!["a", "b"], 1), Value::Null, entry(vec![], 2)]),
        Value::List(vec![]),
        Value::Null,
        Value::List(vec![entry(vec!["c"], 3)]),
    ];
    let encoded = build_array(&data_type, &rows).unwrap();
    assert_eq!(encoded.inner.as_list::<i32>().value_offsets(), &[0, 3, 3, 3, 4]);
    assert_eq!(decode_all(&data_type, &encoded), rows);
}

#[test]
fn struct_fields_are_read_by_name() {
    let swapped = Value::Struct(vec![
        ("b".to_string(), text("y")),
        ("extra".to_string(), Value::Bool(true)),
        ("a".to_string(), Value::Int(4)),
    ]);
    let encoded = build_array(&point_type(), std::slice::from_ref(&swapped)).unwrap();
    assert_eq!(decode_all(&point_type(), &encoded), vec![point(Value::Int(4), text("y"))]);
    assert_eq!(swapped.field(&"a".to_string()), Some(&Value::Int(4)));
    assert_eq!(swapped.field(&"c".to_string()), None);
    assert_eq!(Value::Int(1).field(&"a".to_string()), None);
    let twice = Value::Struct(vec![("a".to_string(), Value::Int(1)), ("a".to_string(), Value::Int(2))]);
    assert_eq!(twice.field(&"a".to_string()), Some(&Value::Int(1)));
}

#[test]
fn value_of_wrong_type_is_a_mismatch_at_its_row() {
    let mismatch = |row: usize, expected: DataType| ConvertError::TypeMismatch { row, expected };
    let r = build_array(&DataType::Int32, &[Value::Int(1), Value::Null, text("x"), Value::Bool(true)]);
    assert_eq!(r.unwrap_err(), mismatch(2, DataType::Int32));
    let r = build_array(&DataType::Boolean, &[Value::Int(1)]);
    assert_eq!(r.unwrap_err(), mismatch(0, DataType::Boolean));
    let r = build_array(&DataType::Int32, &[Value::Bool(true)]);
    assert_eq!(r.unwrap_err(), mismatch(0, DataType::Int32));
    let r = build_array(&DataType::Float32, &[Value::Float64(0)]);
    assert_eq!(r.unwrap_err(), mismatch(0, DataType::Float32));
    let r = build_array(&DataType::Float64, &[Value::Float32(0)]);
    assert_eq!(r.unwrap_err(), mismatch(0, DataType::Float64));
    let r = build_array(&DataType::Utf8, &[Value::Bytes(vec![])]);
    assert_eq!(r.unwrap_err(), mismatch(0, DataType::Utf8));
    let r = build_array(&DataType::Binary, &[text("")]);
    assert_eq!(r.unwrap_err(), mismatch(0, DataType::Binary));
    let r = build_array(&DataType::Json, &[text("{}")]);
    assert_eq!(r.unwrap_err(), mismatch(0, DataType::Json));
    let r = build_array(&DataType::Decimal, &[Value::Int(1)]);
    assert_eq!(r.unwrap_err(), mismatch(0, DataType::Decimal));
}

#[test]
fn integer_out_of_range_is_a_mismatch() {
    let mismatch = |row: usize, expected: DataType| ConvertError::TypeMismatch { row, expected };
    let cases = vec![
        (DataType::Int8, 127, 128),
        (DataType::Int8, -128, -129),
        (DataType::Int16, 32767, 32768),
        (DataType::Int16, -32768, -32769),
        (DataType::Int32, 2147483647, 2147483648),
        (DataType::Int32, -2147483648, -2147483649),
        (DataType::Int64, 9223372036854775807, 9223372036854775808),
        (DataType::Int64, -9223372036854775808, -9223372036854775809),
        (DataType::UInt8, 255, 256),
        (DataType::UInt8, 0, -1),
        (DataType::UInt16, 65535, 65536),
        (DataType::UInt32, 4294967295, 4294967296),
        (DataType::UInt64, 18446744073709551615, 18446744073709551616),
        (DataType::UInt64, 0, -1),
    ];
    for (data_type, inside, outside) in cases {
        assert!(build_array(&data_type, &[Value::Int(inside)]).is_ok());
        let r = build_array(&data_type, &[Value::Int(inside), Value::Int(outside)]);
        assert_eq!(r.unwrap_err(), mismatch(1, data_type));
    }
}

#[test]
fn nested_mismatch_is_reported_where_it_lies() {
    let list = DataType::List(Box::new(DataType::Int32));
    let r = build_array(&list, &[Value::Null, Value::Int(1)]);
    assert_eq!(r.unwrap_err(), ConvertError::TypeMismatch { row: 1, expected: list.duplicate() });
    let rows = [Value::List(vec![Value::Int(1)]), Value::List(vec![Value::Int(2), text("x")])];
    let r = build_array(&list, &rows);
    assert_eq!(r.unwrap_err(), ConvertError::TypeMismatch { row: 2, expected: DataType::Int32 });
    let r = build_array(&point_type(), &[Value::Null, Value::Int(1)]);
    assert_eq!(r.unwrap_err(), ConvertError::TypeMismatch { row: 1, expected: point_type() });
    let only_a = Value::Struct(vec![("a".to_string(), Value::Int(1))]);
    let r = build_array(&point_type(), &[point(Value::Int(0), text("")), only_a]);
    assert_eq!(r.unwrap_err(), ConvertError::TypeMismatch { row: 1, expected: point_type() });
    let r = build_array(&point_type(), &[point(text("no"), Value::Int(0))]);
    assert_eq!(r.unwrap_err(), ConvertError::TypeMismatch { row: 0, expected: DataType::Int32 });
    let r = build_array(&point_type(), &[point(Value::Int(0), Value::Int(0))]);
    assert_eq!(r.unwrap_err(), ConvertError::TypeMismatch { row: 0, expected: DataType::Utf8 });
}

#[test]
fn struct_without_fields_cannot_have_rows() {
    let empty = DataType::Struct(vec![]);
    let r = build_array(&empty, &[Value::Null]);
    assert_eq!(r.unwrap_err(), ConvertError::LengthInconsistency { data_type: DataType::Struct(vec![]) });
    let r = build_array(&empty, &[Value::Int(1), Value::Struct(vec![])]);
    assert_eq!(r.unwrap_err(), ConvertError::LengthInconsistency { data_type: DataType::Struct(vec![]) });
    let none = build_array(&empty, &[]).unwrap();
    assert_eq!(none.inner.len(), 0);
    assert_eq!(none.inner.as_struct().num_columns(), 0);
}

#[test]
fn decimal_bytes_must_be_text() {
    let a = wrap(LargeBinaryArray::from(vec![Some(&b"1.5"[..]), Some(&[0xff, 0xfe][..]), None]));
    assert_eq!(get_pyobject(&DataType::Decimal, &a, 0).unwrap(), Value::Decimal("1.5".to_string()));
    assert_eq!(
        get_pyobject(&DataType::Decimal, &a, 1).unwrap_err(),
        ConvertError::MalformedText { row: 1, data_type: DataType::Decimal }
    );
    assert_eq!(get_pyobject(&DataType::Decimal, &a, 2).unwrap(), Value::Null);
    let child: ArrayRef = Arc::new(LargeBinaryArray::from(vec![Some(&b"7"[..]), Some(&[0x80][..])]));
    let field = Arc::new(arrow_schema::Field::new("item", arrow_schema::DataType::LargeBinary, true));
    let list = wrap(ListArray::new(field, OffsetBuffer::new(vec![0, 1, 2].into()), child, None));
    let data_type = DataType::List(Box::new(DataType::Decimal));
    assert_eq!(
        get_pyobject(&data_type, &list, 0).unwrap(),
        Value::List(vec![Value::Decimal("7".to_string())])
    );
    assert_eq!(
        get_pyobject(&data_type, &list, 1).unwrap_err(),
        ConvertError::MalformedText { row: 1, data_type: DataType::Decimal }
    );
}

#[test]
fn empty_input_gives_empty_arrays() {
    for data_type in [DataType::Int32, DataType::Utf8, DataType::List(Box::new(DataType::Int8)), point_type()] {
        let encoded = build_array(&data_type, &[]).unwrap();
        assert_eq!(encoded.inner.len(), 0);
    }
    let list = build_array(&DataType::List(Box::new(DataType::Int8)), &[]).unwrap();
    assert_eq!(list.inner.as_list::<i32>().value_offsets(), &[0]);
}

#[test]
fn encoded_arrays_have_the_arrow_type_of_their_descriptor() {
    let cases = vec![
        (DataType::Boolean, Arrow::Boolean),
        (DataType::Int8, Arrow::Int8),
        (DataType::UInt64, Arrow::UInt64),
        (DataType::Float32, Arrow::Float32),
        (DataType::Float64, Arrow::Float64),
        (DataType::Utf8, Arrow::Utf8),
        (DataType::Binary, Arrow::Binary),
        (DataType::Json, Arrow::LargeUtf8),
        (DataType::Decimal, Arrow::LargeBinary),
    ];
    for (data_type, arrow_type) in cases {
        let encoded = build_array(&data_type, &[Value::Null]).unwrap();
        assert_eq!(encoded.inner.data_type(), &arrow_type);
    }
    let list = build_array(&DataType::List(Box::new(DataType::Utf8)), &[]).unwrap();
    assert_eq!(
        list.inner.data_type(),
        &Arrow::List(Arc::new(arrow_schema::Field::new("item", Arrow::Utf8, true)))
    );
}

#[test]
fn sliced_arrays_decode_their_own_rows() {
    let data_type = DataType::List(Box::new(DataType::Int32));
    let rows = vec![
        Value::List(vec![Value::Int(1)]),
        Value::List(vec![Value::Int(2), Value::Int(3)]),
        Value::Null,
        Value::List(vec![Value::Int(4)]),
    ];
    let whole = build_array(&data_type, &rows).unwrap();
    let part = ArrowArray { inner: whole.inner.slice(1, 3) };
    assert_eq!(
        decode_all(&data_type, &part),
        vec![Value::List(vec![Value::Int(2), Value::Int(3)]), Value::Null, Value::List(vec![Value::Int(4)])]
    );
    let points = vec![point(Value::Int(1), text("a")), Value::Null, point(Value::Int(3), text("c"))];
    let whole = build_array(&point_type(), &points).unwrap();
    let part = ArrowArray { inner: whole.inner.slice(2, 1) };
    assert_eq!(decode_all(&point_type(), &part), vec![point(Value::Int(3), text("c"))]);
    let texts = build_array(&DataType::Utf8, &[text("x"), Value::Null, text("z")]).unwrap();
    let part = ArrowArray { inner: texts.inner.slice(1, 2) };
    assert_eq!(decode_all(&DataType::Utf8, &part), vec![Value::Null, text("z")]);
}

#[test]
fn bit_patterns_of_numbers_are_kept() {
    let singles = vec![
        Value::Float32(0x7fc0_1234),
        Value::Float32(0x8000_0000),
        Value::Float32(0x7f80_0000),
        Value::Float32(0x0000_0001),
    ];
    let encoded = build_array(&DataType::Float32, &singles).unwrap();
    assert!(encoded.inner.as_primitive::<Float32Type>().value(0).is_nan());
    assert_eq!(encoded.inner.as_primitive::<Float32Type>().value(2), f32::INFINITY);
    assert_eq!(decode_all(&DataType::Float32, &encoded), singles);
    let doubles = vec![Value::Float64(0x7ff8_0000_0000_0abc), Value::Float64(0x8000_0000_0000_0000)];
    let encoded = build_array(&DataType::Float64, &doubles).unwrap();
    assert!(encoded.inner.as_primitive::<Float64Type>().value(0).is_nan());
    assert_eq!(decode_all(&DataType::Float64, &encoded), doubles);
}
