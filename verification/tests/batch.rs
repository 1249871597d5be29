use std::sync::Arc;

use arrow_array::cast::AsArray;
use arrow_array::types::Int32Type;
use arrow_array::{Array, Int32Array, StringArray};
use arrow_udf_python::arrow::ArrowArray;
use arrow_udf_python::batch::RecordBatch;
use arrow_udf_python::error::ConvertError;
use arrow_udf_python::eval::{broadcast_output, collect_output};
use arrow_udf_python::types::{DataType, Field};
use arrow_udf_python::value::Value;

fn field(name: &str, data_type: DataType) -> Field {
    Field { name: name.to_string(), data_type }
}

fn ints(rows: Vec<Option<i32>>) -> ArrowArray {
    ArrowArray { inner: Arc::new(Int32Array::from(rows)) }
}

fn texts(rows: Vec<Option<&str>>) -> ArrowArray {
    ArrowArray { inner: Arc::new(StringArray::from(rows)) }
}

#[test]
fn batch_takes_equally_long_columns() {
    let schema = vec![field("n", DataType::Int32), field("s", DataType::Utf8)];
    let columns = vec![ints(vec![Some(1), None]), texts(vec![None, Some("b")])];
    let batch = RecordBatch::try_new(schema, columns).unwrap();
    assert_eq!(batch.num_rows, 2);
    assert_eq!(batch.types(), vec![DataType::Int32, DataType::Utf8]);
    assert_eq!(batch.row(0).unwrap(), vec![Value::Int(1), Value::Null]);
    assert_eq!(batch.row(1).unwrap(), vec![Value::Null, Value::Str("b".to_string())]);
}

#[test]
fn batch_turns_down_uneven_columns() {
    let schema = || vec![field("n", DataType::Int32), field("s", DataType::Utf8)];
    let inconsistent = ConvertError::LengthInconsistency { data_type: DataType::Struct(schema()) };
    let uneven = vec![ints(vec![Some(1), None]), texts(vec![None])];
    assert_eq!(RecordBatch::try_new(schema(), uneven).err(), Some(inconsistent));
    let inconsistent = ConvertError::LengthInconsistency { data_type: DataType::Struct(schema()) };
    let too_few = vec![ints(vec![Some(1)])];
    assert_eq!(RecordBatch::try_new(schema(), too_few).err(), Some(inconsistent));
    let no_columns = ConvertError::LengthInconsistency { data_type: DataType::Struct(vec![]) };
    assert_eq!(RecordBatch::try_new(vec![], vec![]).err(), Some(no_columns));
}

#[test]
fn batch_without_columns_keeps_its_row_count() {
    let batch = RecordBatch::with_row_count(4);
    assert_eq!(batch.num_rows, 4);
    assert_eq!(batch.columns.len(), 0);
    assert_eq!(batch.types(), Vec::<DataType>::new());
    assert_eq!(batch.row(2).unwrap(), Vec::<Value>::new());
}

#[test]
fn results_without_value_become_null_rows() {
    let results = vec![Some(Value::Int(5)), None, Some(Value::Null), Some(Value::Int(-1))];
    let output = collect_output(&DataType::Int32, &results).unwrap();
    assert_eq!(
        output.inner.as_primitive::<Int32Type>(),
        &Int32Array::from(vec![Some(5), None, None, Some(-1)])
    );
    let wrong = vec![None, Some(Value::Bool(true))];
    assert_eq!(
        collect_output(&DataType::Int32, &wrong).unwrap_err(),
        ConvertError::TypeMismatch { row: 1, expected: DataType::Int32 }
    );
}

#[test]
fn one_result_fills_all_rows() {
    let output = broadcast_output(&DataType::Int32, &Some(Value::Int(9)), 3).unwrap();
    assert_eq!(output.inner.as_primitive::<Int32Type>(), &Int32Array::from(vec![9, 9, 9]));
    let output = broadcast_output(&DataType::Utf8, &None, 2).unwrap();
    assert_eq!(output.inner.as_string::<i32>(), &StringArray::from(vec![None::<&str>, None]));
    let output = broadcast_output(&DataType::Int32, &Some(Value::Int(9)), 0).unwrap();
    assert_eq!(output.inner.len(), 0);
    assert_eq!(
        broadcast_output(&DataType::Int32, &Some(Value::Bool(false)), 2).unwrap_err(),
        ConvertError::TypeMismatch { row: 0, expected: DataType::Int32 }
    );
}
