use std::sync::Arc;

use arrow_array::cast::AsArray;
use arrow_array::types::Int32Type;
use arrow_array::{Array, Int32Array};
use arrow_udf_python::arrow::ArrowArray;
use arrow_udf_python::batch::RecordBatch;
use arrow_udf_python::eval::EvalError;
use arrow_udf_python::signature::FunctionSignature;
use arrow_udf_python::types::{DataType, Field};
use arrow_udf_python::value::Value;

type RowResult = Result<Option<Value>, String>;

fn neg(args: &Vec<Value>) -> RowResult {
    match &args[0] {
        Value::Null => Ok(None),
        Value::Int(x) => Ok(Some(Value::Int(-*x))),
        other => Err(format!("neg of {:?}", other)),
    }
}

fn zero(_args: &Vec<Value>) -> RowResult {
    Ok(Some(Value::Int(0)))
}

fn nothing(_args: &Vec<Value>) -> RowResult {
    Ok(None)
}

fn gcd(args: &Vec<Value>) -> RowResult {
    match (&args[0], &args[1]) {
        (Value::Int(a), Value::Int(b)) => {
            let (mut a, mut b) = (*a, *b);
            while b != 0 {
                let t = b;
                b = a % b;
                a = t;
            }
            Ok(Some(Value::Int(a)))
        }
        _ => Ok(None),
    }
}

fn odd_only(args: &Vec<Value>) -> RowResult {
    match &args[0] {
        Value::Int(x) if x % 2 == 0 => Ok(None),
        Value::Int(x) => Ok(Some(Value::Int(*x))),
        _ => Ok(None),
    }
}

fn fail_on_two(args: &Vec<Value>) -> RowResult {
    match &args[0] {
        Value::Int(2) => Err("two".to_string()),
        Value::Int(x) => Ok(Some(Value::Int(*x))),
        _ => Ok(None),
    }
}

fn neg_int4_int4_sig() -> FunctionSignature<fn(&Vec<Value>) -> RowResult> {
    FunctionSignature {
        name: "neg".to_string(),
        arg_types: vec![DataType::Int32],
        variadic: false,
        return_type: DataType::Int32,
        function: neg,
    }
}

fn int32_batch(name: &str, rows: Vec<Option<i32>>) -> RecordBatch {
    let schema = vec![Field { name: name.to_string(), data_type: DataType::Int32 }];
    let column = ArrowArray { inner: Arc::new(Int32Array::from(rows)) };
    RecordBatch::try_new(schema, vec![column]).unwrap()
}

#[test]
fn test_neg() {
    let sig = neg_int4_int4_sig();
    assert_eq!(sig.name, "neg");
    assert_eq!(sig.arg_types, vec![DataType::Int32]);
    assert_eq!(sig.variadic, false);
    assert_eq!(sig.return_type, DataType::Int32);

    let schema = vec![Field { name: "int32".to_string(), data_type: DataType::Int32 }];
    let arg0 = Int32Array::from(vec![Some(1), None]);
    let expected = Int32Array::from(vec![Some(-1), None]);
    let input = RecordBatch::try_new(schema, vec![ArrowArray { inner: Arc::new(arg0) }]).unwrap();

    let output = sig.eval(&input).unwrap();
    assert_eq!(output.inner.as_primitive::<Int32Type>(), &expected);
}

#[test]
fn zero_argument_function_fills_every_row() {
    let sig: FunctionSignature<fn(&Vec<Value>) -> RowResult> = FunctionSignature {
        name: "zero".to_string(),
        arg_types: vec![],
        variadic: false,
        return_type: DataType::Int32,
        function: zero,
    };
    let batch = RecordBatch::with_row_count(3);
    let output = sig.eval(&batch).unwrap();
    assert_eq!(output.inner.len(), 3);
    assert_eq!(output.inner.as_primitive::<Int32Type>(), &Int32Array::from(vec![0, 0, 0]));
}

#[test]
fn zero_argument_function_is_called_once() {
    let calls = std::cell::Cell::new(0);
    let sig = FunctionSignature {
        name: "tick".to_string(),
        arg_types: vec![],
        variadic: false,
        return_type: DataType::Int64,
        function: |_args: &Vec<Value>| -> RowResult {
            calls.set(calls.get() + 1);
            Ok(Some(Value::Int(7)))
        },
    };
    let output = sig.eval(&RecordBatch::with_row_count(5)).unwrap();
    assert_eq!(output.inner.len(), 5);
    assert_eq!(calls.get(), 1);
}

#[test]
fn zero_argument_function_without_batch_gives_one_row() {
    let sig: FunctionSignature<fn(&Vec<Value>) -> RowResult> = FunctionSignature {
        name: "zero".to_string(),
        arg_types: vec![],
        variadic: false,
        return_type: DataType::Int32,
        function: zero,
    };
    let output = sig.eval_once().unwrap();
    assert_eq!(output.inner.as_primitive::<Int32Type>(), &Int32Array::from(vec![0]));
    assert_eq!(neg_int4_int4_sig().eval_once().unwrap_err(), EvalError::Arguments);
}

#[test]
fn function_without_value_gives_null_rows() {
    let sig: FunctionSignature<fn(&Vec<Value>) -> RowResult> = FunctionSignature {
        name: "null".to_string(),
        arg_types: vec![],
        variadic: false,
        return_type: DataType::Null,
        function: nothing,
    };
    let output = sig.eval(&RecordBatch::with_row_count(2)).unwrap();
    assert_eq!(output.inner.len(), 2);
    assert_eq!(output.inner.data_type(), &arrow_schema::DataType::Null);
}

#[test]
fn row_without_value_becomes_null() {
    let sig: FunctionSignature<fn(&Vec<Value>) -> RowResult> = FunctionSignature {
        name: "odd_only".to_string(),
        arg_types: vec![DataType::Int32],
        variadic: false,
        return_type: DataType::Int32,
        function: odd_only,
    };
    let output = sig.eval(&int32_batch("x", vec![Some(1), Some(2), Some(3)])).unwrap();
    assert_eq!(
        output.inner.as_primitive::<Int32Type>(),
        &Int32Array::from(vec![Some(1), None, Some(3)])
    );
}

#[test]
fn two_argument_function_sees_both_columns() {
    let sig: FunctionSignature<fn(&Vec<Value>) -> RowResult> = FunctionSignature {
        name: "gcd".to_string(),
        arg_types: vec![DataType::Int32, DataType::Int32],
        variadic: false,
        return_type: DataType::Int32,
        function: gcd,
    };
    let schema = vec![
        Field { name: "a".to_string(), data_type: DataType::Int32 },
        Field { name: "b".to_string(), data_type: DataType::Int32 },
    ];
    let a = ArrowArray { inner: Arc::new(Int32Array::from(vec![Some(12), Some(7), None])) };
    let b = ArrowArray { inner: Arc::new(Int32Array::from(vec![Some(18), Some(5), Some(1)])) };
    let batch = RecordBatch::try_new(schema, vec![a, b]).unwrap();
    let output = sig.eval(&batch).unwrap();
    assert_eq!(
        output.inner.as_primitive::<Int32Type>(),
        &Int32Array::from(vec![Some(6), Some(1), None])
    );
}

#[test]
fn host_error_ends_the_evaluation() {
    let sig: FunctionSignature<fn(&Vec<Value>) -> RowResult> = FunctionSignature {
        name: "fail_on_two".to_string(),
        arg_types: vec![DataType::Int32],
        variadic: false,
        return_type: DataType::Int32,
        function: fail_on_two,
    };
    let r = sig.eval(&int32_batch("x", vec![Some(1), Some(2), Some(3)]));
    assert_eq!(r.unwrap_err(), EvalError::Host("two".to_string()));
}

#[test]
fn result_of_wrong_type_is_a_conversion_error() {
    let sig: FunctionSignature<fn(&Vec<Value>) -> RowResult> = FunctionSignature {
        name: "neg".to_string(),
        arg_types: vec![DataType::Int32],
        variadic: false,
        return_type: DataType::Utf8,
        function: neg,
    };
    let r = sig.eval(&int32_batch("x", vec![None, Some(2)]));
    assert_eq!(
        r.unwrap_err(),
        EvalError::Convert(arrow_udf_python::error::ConvertError::TypeMismatch {
            row: 1,
            expected: DataType::Utf8
        })
    );
}

#[test]
fn batch_that_does_not_fit_the_signature_is_refused() {
    let sig = neg_int4_int4_sig();
    assert_eq!(sig.eval(&RecordBatch::with_row_count(3)).unwrap_err(), EvalError::Arguments);
    let schema = vec![Field { name: "x".to_string(), data_type: DataType::Int64 }];
    let column = ArrowArray { inner: Arc::new(arrow_array::Int64Array::from(vec![1i64])) };
    let batch = RecordBatch::try_new(schema, vec![column]).unwrap();
    assert_eq!(sig.eval(&batch).unwrap_err(), EvalError::Arguments);
}

#[test]
fn empty_batch_gives_empty_output() {
    let sig = neg_int4_int4_sig();
    let output = sig.eval(&int32_batch("x", vec![])).unwrap();
    assert_eq!(output.inner.len(), 0);
}
