//! The batch evaluator: runs the computation of a signature on every row of
//! a batch and folds the results into one column array.

use vstd::prelude::*;
use crate::arrow::{array_view, ArrowArray};
use crate::batch::{column_views, row_spec, schema_types, RecordBatch};
use crate::column::ColumnView;
use crate::encode::{encode, encode_spec, owned_views, value_views};
use crate::error::{ConvertError, ConvertErrorView};
use crate::signature::{accepts_args, fits, FunctionSignature};
use crate::types::{DataType, TypeView};
use crate::value::{Value, ValueView};

verus! {

/// Why the evaluation of a batch failed.
#[derive(Debug, PartialEq, Eq)]
pub enum EvalError<E> {
    /// The columns of the batch are not the arguments that the signature
    /// declares.
    Arguments,
    /// A row could not be decoded, or the results could not be encoded.
    Convert(ConvertError),
    /// The computation failed on a row, with an error of the host's own.
    Host(E),
}

/// The value that a row's result stands for: the null value where the
/// computation gave no value.
pub open spec fn produced(result: Option<Value>) -> ValueView {
    match result {
        Some(v) => v@,
        None => ValueView::Null,
    }
}

/// The values that a sequence of results stands for.
pub open spec fn produced_all(results: Seq<Option<Value>>) -> Seq<ValueView> {
    Seq::new(results.len(), |i: int| produced(results[i]))
}

/// Whether the computation `f`, given the arguments `args`, may come back
/// with a result that stands for `out`.
pub open spec fn answers<F: Fn(&Vec<Value>) -> Result<Option<Value>, E>, E>(
    f: F,
    args: Seq<ValueView>,
    out: ValueView,
) -> bool {
    exists|given: Vec<Value>, result: Option<Value>|
        #![trigger call_ensures(f, (&given,), Ok::<Option<Value>, E>(result))]
        owned_views(given@) == args && call_ensures(f, (&given,), Ok::<Option<Value>, E>(result))
            && produced(result) == out
}

/// Whether the computation `f`, given the arguments `args`, may fail with
/// `error`.
pub open spec fn refuses<F: Fn(&Vec<Value>) -> Result<Option<Value>, E>, E>(
    f: F,
    args: Seq<ValueView>,
    error: E,
) -> bool {
    exists|given: Vec<Value>|
        #![trigger call_ensures(f, (&given,), Err::<Option<Value>, E>(error))]
        owned_views(given@) == args && call_ensures(f, (&given,), Err::<Option<Value>, E>(error))
}

/// Whether `results` are results of `f` on the first `upto` rows of the
/// columns, row by row and in the order of the rows.
pub open spec fn rows_answered<F: Fn(&Vec<Value>) -> Result<Option<Value>, E>, E>(
    f: F,
    columns: Seq<ColumnView>,
    results: Seq<ValueView>,
    upto: int,
) -> bool {
    forall|i: int|
        #![trigger row_spec(columns, i)]
        #![trigger results[i]]
        0 <= i < upto ==> row_spec(columns, i) is Ok && answers(f, row_spec(columns, i)->Ok_0, results[i])
}

/// Whether `results` are what evaluating `f` over a batch comes to: without
/// arguments, one result of `f` for all rows; otherwise a result of `f` for
/// each row.
pub open spec fn evaluated<F: Fn(&Vec<Value>) -> Result<Option<Value>, E>, E>(
    f: F,
    columns: Seq<ColumnView>,
    rows: nat,
    results: Seq<ValueView>,
) -> bool {
    &&& results.len() == rows
    &&& if columns.len() == 0 {
        exists|out: ValueView|
            #![trigger answers(f, Seq::<ValueView>::empty(), out)]
            answers(f, Seq::<ValueView>::empty(), out) && results == Seq::new(rows, |i: int| out)
    } else {
        rows_answered(f, columns, results, rows as int)
    }
}

/// Fold the results of a batch into the output column: a row for which the
/// computation gave no value becomes a null row, whatever the type; every
/// other result is encoded as the type asks.
pub fn collect_output(return_type: &DataType, results: &Vec<Option<Value>>) -> (r: Result<
    ArrowArray,
    ConvertError,
>)
    ensures
        match r {
            Ok(a) => encode_spec(return_type@, produced_all(results@)) == Ok::<
                ColumnView,
                ConvertErrorView,
            >(array_view(a)),
            Err(e) => encode_spec(return_type@, produced_all(results@)) == Err::<
                ColumnView,
                ConvertErrorView,
            >(e@),
        },
{
    let absent = Value::Null;
    let mut borrowed: Vec<&Value> = Vec::with_capacity(results.len());
    let mut i: usize = 0;
    while i < results.len()
        invariant
            i <= results.len(),
            absent@ is Null,
            borrowed.len() == i,
            forall|k: int| 0 <= k < i ==> (#[trigger] borrowed[k])@ == produced(results[k]),
        decreases results.len() - i,
    {
        match &results[i] {
            Some(value) => {
                borrowed.push(value);
            },
            None => {
                borrowed.push(&absent);
            },
        }
        i += 1;
    }
    assert(value_views(borrowed@) =~= produced_all(results@));
    encode(return_type, &borrowed)
}

/// Spread one result over all rows of the output column: the column has
/// `rows` rows, each of which holds the result, or is null where there is
/// none.
pub fn broadcast_output(return_type: &DataType, result: &Option<Value>, rows: usize) -> (r: Result<
    ArrowArray,
    ConvertError,
>)
    ensures
        match r {
            Ok(a) => encode_spec(return_type@, Seq::new(rows as nat, |i: int| produced(*result)))
                == Ok::<ColumnView, ConvertErrorView>(array_view(a)),
            Err(e) => encode_spec(return_type@, Seq::new(rows as nat, |i: int| produced(*result)))
                == Err::<ColumnView, ConvertErrorView>(e@),
        },
{
    let absent = Value::Null;
    let value: &Value = match result {
        Some(value) => value,
        None => &absent,
    };
    let mut borrowed: Vec<&Value> = Vec::with_capacity(rows);
    let mut i: usize = 0;
    while i < rows
        invariant
            i <= rows,
            value@ == produced(*result),
            borrowed.len() == i,
            forall|k: int| 0 <= k < i ==> (#[trigger] borrowed[k])@ == value@,
        decreases rows - i,
    {
        borrowed.push(value);
        i += 1;
    }
    assert(value_views(borrowed@) =~= Seq::new(rows as nat, |i: int| produced(*result)));
    encode(return_type, &borrowed)
}

/// What evaluating `f` over the columns of a batch of `rows` rows may come
/// to, once the columns are known to be its arguments.
///
/// An output column encodes results of `f`. A conversion error is that of
/// a row that fails to decode, or that of encoding results of `f`. A host
/// error is one that `f` may fail with on the arguments of some row.
pub open spec fn eval_outcome<F: Fn(&Vec<Value>) -> Result<Option<Value>, E>, E>(
    f: F,
    return_type: TypeView,
    columns: Seq<ColumnView>,
    rows: nat,
    r: Result<ArrowArray, EvalError<E>>,
) -> bool {
    match r {
        Ok(a) => exists|results: Seq<ValueView>|
            #![trigger encode_spec(return_type, results)]
            evaluated(f, columns, rows, results) && encode_spec(return_type, results) == Ok::<
                ColumnView,
                ConvertErrorView,
            >(array_view(a)),
        Err(EvalError::Arguments) => false,
        Err(EvalError::Convert(e)) => {
            ||| exists|i: int|
                #![trigger row_spec(columns, i)]
                0 <= i < rows && columns.len() > 0 && row_spec(columns, i) == Err::<
                    Seq<ValueView>,
                    ConvertErrorView,
                >(e@)
            ||| exists|results: Seq<ValueView>|
                #![trigger encode_spec(return_type, results)]
                evaluated(f, columns, rows, results) && encode_spec(return_type, results) == Err::<
                    ColumnView,
                    ConvertErrorView,
                >(e@)
        },
        Err(EvalError::Host(e)) => if columns.len() == 0 {
            refuses(f, Seq::<ValueView>::empty(), e)
        } else {
            exists|i: int|
                #![trigger row_spec(columns, i)]
                0 <= i < rows && row_spec(columns, i) is Ok && refuses(f, row_spec(columns, i)->Ok_0, e)
        },
    }
}

impl<F> FunctionSignature<F> {
    /// Evaluate the computation over a batch and give the output column.
    ///
    /// The columns of the batch must be the arguments that the signature
    /// declares. A signature without arguments is computed once, and its one
    /// result fills every row. Otherwise every row is decoded and computed
    /// in the order of the rows, and the results are encoded as the return
    /// type. The first row that fails ends the evaluation.
    pub fn eval<E>(&self, batch: &RecordBatch) -> (r: Result<ArrowArray, EvalError<E>>) where
        F: Fn(&Vec<Value>) -> Result<Option<Value>, E>,

        requires
            batch.wf(),
            forall|given: &Vec<Value>| call_requires(self.function, (given,)),
        ensures
            if accepts_args(self@.arg_types, self.variadic, schema_types(batch.schema@)) {
                eval_outcome(
                    self.function,
                    self.return_type@,
                    column_views(batch.columns@),
                    batch.num_rows as nat,
                    r,
                )
            } else {
                r == Err::<ArrowArray, EvalError<E>>(EvalError::Arguments)
            },
    {
        let ghost columns = column_views(batch.columns@);
        let types = batch.types();
        if !fits(&self.arg_types, self.variadic, &types) {
            return Err(EvalError::Arguments);
        }
        if batch.columns.len() == 0 {
            let given: Vec<Value> = Vec::new();
            let ghost none = Seq::<ValueView>::empty();
            assert(owned_views(given@) =~= none);
            match (self.function)(&given) {
                Ok(result) => {
                    let ghost out = produced(result);
                    let ghost results = Seq::new(batch.num_rows as nat, |i: int| out);
                    proof {
                        assert(answers(self.function, none, out));
                        assert(evaluated(self.function, columns, batch.num_rows as nat, results));
                    }
                    match broadcast_output(&self.return_type, &result, batch.num_rows) {
                        Ok(a) => Ok(a),
                        Err(e) => Err(EvalError::Convert(e)),
                    }
                },
                Err(e) => {
                    proof {
                        assert(refuses(self.function, none, e));
                    }
                    Err(EvalError::Host(e))
                },
            }
        } else {
            let mut results: Vec<Option<Value>> = Vec::with_capacity(batch.num_rows);
            let mut i: usize = 0;
            while i < batch.num_rows
                invariant
                    i <= batch.num_rows,
                    batch.wf(),
                    batch.columns.len() > 0,
                    columns == column_views(batch.columns@),
                    accepts_args(self@.arg_types, self.variadic, schema_types(batch.schema@)),
                    forall|given: &Vec<Value>| call_requires(self.function, (given,)),
                    results.len() == i,
                    rows_answered(self.function, columns, produced_all(results@), i as int),
                decreases batch.num_rows - i,
            {
                let given = match batch.row(i) {
                    Ok(given) => given,
                    Err(e) => {
                        return Err(EvalError::Convert(e));
                    },
                };
                let ghost before = produced_all(results@);
                match (self.function)(&given) {
                    Ok(result) => {
                        let ghost out = produced(result);
                        proof {
                            assert(answers(self.function, row_spec(columns, i as int)->Ok_0, out));
                        }
                        results.push(result);
                        proof {
                            let after = produced_all(results@);
                            assert(after[i as int] == out);
                            assert forall|k: int| 0 <= k < i + 1 implies (#[trigger] row_spec(
                                columns,
                                k,
                            )) is Ok && answers(self.function, row_spec(columns, k)->Ok_0, after[k]) by {
                                if k < i {
                                    assert(after[k] == before[k]);
                                }
                            }
                            assert(rows_answered(self.function, columns, after, i + 1));
                        }
                    },
                    Err(e) => {
                        proof {
                            assert(refuses(self.function, row_spec(columns, i as int)->Ok_0, e));
                        }
                        return Err(EvalError::Host(e));
                    },
                }
                i += 1;
            }
            proof {
                assert(evaluated(
                    self.function,
                    columns,
                    batch.num_rows as nat,
                    produced_all(results@),
                ));
            }
            match collect_output(&self.return_type, &results) {
                Ok(a) => Ok(a),
                Err(e) => Err(EvalError::Convert(e)),
            }
        }
    }

    /// Evaluate a computation without arguments where no batch gives a
    /// number of rows: it is computed once, and the output column has the
    /// one row of its result.
    pub fn eval_once<E>(&self) -> (r: Result<ArrowArray, EvalError<E>>) where
        F: Fn(&Vec<Value>) -> Result<Option<Value>, E>,

        requires
            forall|given: &Vec<Value>| call_requires(self.function, (given,)),
        ensures
            if self.arg_types.len() == 0 {
                eval_outcome(self.function, self.return_type@, Seq::<ColumnView>::empty(), 1, r)
            } else {
                r == Err::<ArrowArray, EvalError<E>>(EvalError::Arguments)
            },
    {
        let batch = RecordBatch::with_row_count(1);
        assert(column_views(batch.columns@) =~= Seq::<ColumnView>::empty());
        assert(schema_types(batch.schema@) =~= Seq::<TypeView>::empty());
        self.eval(&batch)
    }
}

} // verus!
