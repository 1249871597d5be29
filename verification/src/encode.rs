//! The encoder: from a type and one dynamic value per row to a column array.

use vstd::pervasive::unreached;
use vstd::prelude::*;
use vstd::slice::slice_to_vec;
use vstd::utf8::encode_utf8;
use crate::arrow::{
    array_view, array_views, byte_rows, int_offsets, name_views, byte_total, new_binary_array, new_boolean_array, new_float32_array,
    new_float64_array, new_int16_array, new_int32_array, new_int64_array, new_int8_array,
    new_large_binary_array, new_large_utf8_array, new_list_array, new_null_array, new_struct_array,
    new_uint16_array, new_uint32_array, new_uint64_array, new_uint8_array, new_utf8_array, text_rows,
    text_total, ArrowArray,
};
use crate::column::ColumnView;
use crate::error::{ConvertError, ConvertErrorView};
use crate::search::{first_where, lemma_first_where, lemma_first_where_absent, lemma_first_where_found};
use crate::types::{DataType, Field, FieldView, TypeView};
use crate::value::{Value, ValueView};

verus! {

/// Whether a column of type `t` takes the value `v` as one of its rows.
///
/// Every column takes the null value, and a column of the null type takes
/// every value. An integer column takes the integers of its range. A struct
/// column is judged field by field, see [`lacks`].
pub open spec fn accepts(t: TypeView, v: ValueView) -> bool {
    v is Null || match t {
        TypeView::Null => true,
        TypeView::Boolean => v is Bool,
        TypeView::Int8 => v is Int && i8::MIN <= v->Int_0 <= i8::MAX,
        TypeView::Int16 => v is Int && i16::MIN <= v->Int_0 <= i16::MAX,
        TypeView::Int32 => v is Int && i32::MIN <= v->Int_0 <= i32::MAX,
        TypeView::Int64 => v is Int && i64::MIN <= v->Int_0 <= i64::MAX,
        TypeView::UInt8 => v is Int && 0 <= v->Int_0 <= u8::MAX,
        TypeView::UInt16 => v is Int && 0 <= v->Int_0 <= u16::MAX,
        TypeView::UInt32 => v is Int && 0 <= v->Int_0 <= u32::MAX,
        TypeView::UInt64 => v is Int && 0 <= v->Int_0 <= u64::MAX,
        TypeView::Float32 => v is Float32,
        TypeView::Float64 => v is Float64,
        TypeView::Utf8 => v is Str,
        TypeView::Binary => v is Bytes,
        TypeView::Json => v is Json,
        TypeView::Decimal => v is Decimal,
        TypeView::List(_) => v is List,
        TypeView::Struct(_) => true,
    }
}

/// The values that a column of type `t` does not take.
pub open spec fn rejected_by(t: TypeView) -> spec_fn(ValueView) -> bool {
    |v: ValueView| !accepts(t, v)
}

/// The values that are not null and have no field called `name`.
pub open spec fn lacks(name: Seq<char>) -> spec_fn(ValueView) -> bool {
    |v: ValueView| !(v is Null) && v.field(name) is None
}

/// The results that are errors.
pub open spec fn failed() -> spec_fn(Result<ColumnView, ConvertErrorView>) -> bool {
    |outcome: Result<ColumnView, ConvertErrorView>| outcome is Err
}

/// The validity of a list or struct column: a row is valid unless its value
/// is null.
pub open spec fn validity_of(values: Seq<ValueView>) -> Seq<bool> {
    Seq::new(values.len(), |i: int| !(values[i] is Null))
}

/// The elements of a list value; none for any other value.
pub open spec fn items_of(v: ValueView) -> Seq<ValueView> {
    match v {
        ValueView::List(items) => items,
        _ => Seq::empty(),
    }
}

/// The elements of the first `n` values, one list after the other.
pub open spec fn flattened(values: Seq<ValueView>, n: int) -> Seq<ValueView>
    decreases n,
{
    if n <= 0 {
        Seq::empty()
    } else {
        flattened(values, n - 1) + items_of(values[n - 1])
    }
}

/// The offsets of a list column: offset `k` is the number of elements in
/// the first `k` rows.
pub open spec fn offsets_of(values: Seq<ValueView>) -> Seq<int> {
    Seq::new(values.len() + 1, |k: int| flattened(values, k).len() as int)
}

/// The field called `name` of each value; the null value where the value
/// itself is null.
pub open spec fn projected(values: Seq<ValueView>, name: Seq<char>) -> Seq<ValueView> {
    Seq::new(
        values.len(),
        |i: int|
            match values[i].field(name) {
                Some(v) => v,
                None => ValueView::Null,
            },
    )
}

/// The leaf column of type `t` that holds the values, each of which `t`
/// accepts.
pub open spec fn leaf_column(t: TypeView, values: Seq<ValueView>) -> ColumnView {
    let n = values.len();
    match t {
        TypeView::Boolean => ColumnView::Boolean(
            Seq::new(n, |i: int| if values[i] is Bool { Some(values[i]->Bool_0) } else { None }),
        ),
        TypeView::Int8 => ColumnView::Int8(
            Seq::new(n, |i: int| if values[i] is Int { Some(values[i]->Int_0 as i8) } else { None }),
        ),
        TypeView::Int16 => ColumnView::Int16(
            Seq::new(n, |i: int| if values[i] is Int { Some(values[i]->Int_0 as i16) } else { None }),
        ),
        TypeView::Int32 => ColumnView::Int32(
            Seq::new(n, |i: int| if values[i] is Int { Some(values[i]->Int_0 as i32) } else { None }),
        ),
        TypeView::Int64 => ColumnView::Int64(
            Seq::new(n, |i: int| if values[i] is Int { Some(values[i]->Int_0 as i64) } else { None }),
        ),
        TypeView::UInt8 => ColumnView::UInt8(
            Seq::new(n, |i: int| if values[i] is Int { Some(values[i]->Int_0 as u8) } else { None }),
        ),
        TypeView::UInt16 => ColumnView::UInt16(
            Seq::new(n, |i: int| if values[i] is Int { Some(values[i]->Int_0 as u16) } else { None }),
        ),
        TypeView::UInt32 => ColumnView::UInt32(
            Seq::new(n, |i: int| if values[i] is Int { Some(values[i]->Int_0 as u32) } else { None }),
        ),
        TypeView::UInt64 => ColumnView::UInt64(
            Seq::new(n, |i: int| if values[i] is Int { Some(values[i]->Int_0 as u64) } else { None }),
        ),
        TypeView::Float32 => ColumnView::Float32(
            Seq::new(n, |i: int| if values[i] is Float32 { Some(values[i]->Float32_0) } else { None }),
        ),
        TypeView::Float64 => ColumnView::Float64(
            Seq::new(n, |i: int| if values[i] is Float64 { Some(values[i]->Float64_0) } else { None }),
        ),
        TypeView::Utf8 => ColumnView::Utf8(
            Seq::new(n, |i: int| if values[i] is Str { Some(values[i]->Str_0) } else { None }),
        ),
        TypeView::Binary => ColumnView::Binary(
            Seq::new(n, |i: int| if values[i] is Bytes { Some(values[i]->Bytes_0) } else { None }),
        ),
        TypeView::Json => ColumnView::Json(
            Seq::new(n, |i: int| if values[i] is Json { Some(values[i]->Json_0) } else { None }),
        ),
        TypeView::Decimal => ColumnView::Decimal(
            Seq::new(
                n,
                |i: int|
                    if values[i] is Decimal {
                        Some(encode_utf8(values[i]->Decimal_0))
                    } else {
                        None
                    },
            ),
        ),
        _ => ColumnView::Null(n),
    }
}

/// Whether a leaf column is within what its offsets can address: the rows
/// of a text or binary column hold at most `i32::MAX` bytes together, those
/// of a JSON or decimal column at most `i64::MAX`.
pub open spec fn addressable(column: ColumnView) -> bool {
    match column {
        ColumnView::Utf8(rows) => text_total(rows, rows.len() as int) <= i32::MAX,
        ColumnView::Binary(rows) => byte_total(rows, rows.len() as int) <= i32::MAX,
        ColumnView::Json(rows) => text_total(rows, rows.len() as int) <= i64::MAX,
        ColumnView::Decimal(rows) => byte_total(rows, rows.len() as int) <= i64::MAX,
        _ => true,
    }
}

/// The column array that encodes `values` as a column of type `t`, or the
/// error that stands in the way.
///
/// A leaf column fails with a type mismatch at the first row whose value
/// its type does not take. A list column fails likewise at the first row
/// that is neither null nor a list; then its flattened elements are encoded
/// as the child column. A struct column is built field by field in declared
/// order: a field fails at the first row that is not null and lacks it, or
/// else as the column of its projected values fails; the first failing
/// field decides. A column that its offsets cannot address, and a struct
/// column without fields but with rows, fail with a length inconsistency.
pub open spec fn encode_spec(t: TypeView, values: Seq<ValueView>) -> Result<
    ColumnView,
    ConvertErrorView,
>
    decreases t, 1nat,
{
    let n = values.len();
    let rejected = first_where(values, rejected_by(t), n as int);
    if rejected < n {
        Err(ConvertErrorView::TypeMismatch { row: rejected as nat, expected: t })
    } else {
        match t {
            TypeView::List(element) => {
                let flat = flattened(values, n as int);
                if flat.len() > i32::MAX {
                    Err(ConvertErrorView::LengthInconsistency { data_type: t })
                } else {
                    match encode_spec(*element, flat) {
                        Ok(child) => Ok(
                            ColumnView::List {
                                validity: validity_of(values),
                                offsets: offsets_of(values),
                                values: Box::new(child),
                            },
                        ),
                        Err(e) => Err(e),
                    }
                }
            },
            TypeView::Struct(fields) => {
                let outcomes = field_outcomes(fields, values);
                let failing = first_where(outcomes, failed(), fields.len() as int);
                if failing < fields.len() {
                    Err(outcomes[failing]->Err_0)
                } else if fields.len() == 0 && n > 0 {
                    Err(ConvertErrorView::LengthInconsistency { data_type: t })
                } else {
                    Ok(
                        ColumnView::Struct {
                            validity: validity_of(values),
                            names: Seq::new(fields.len(), |j: int| fields[j].name),
                            columns: Seq::new(fields.len(), |j: int| outcomes[j]->Ok_0),
                        },
                    )
                }
            },
            _ => {
                let column = leaf_column(t, values);
                if addressable(column) {
                    Ok(column)
                } else {
                    Err(ConvertErrorView::LengthInconsistency { data_type: t })
                }
            },
        }
    }
}

/// What encoding each field of a struct type comes to, in declared order:
/// the type mismatch at the first row that is not null and lacks the field,
/// or else what encoding the projected values as the field's type comes to.
pub open spec fn field_outcomes(fields: Seq<FieldView>, values: Seq<ValueView>) -> Seq<
    Result<ColumnView, ConvertErrorView>,
>
    decreases fields, 0nat,
{
    Seq::new(
        fields.len(),
        |j: int|
            {
                let missing = first_where(values, lacks(fields[j].name), values.len() as int);
                if missing < values.len() {
                    Err(
                        ConvertErrorView::TypeMismatch {
                            row: missing as nat,
                            expected: TypeView::Struct(fields),
                        },
                    )
                } else if 0 <= j < fields.len() {
                    encode_spec(fields[j].data_type, projected(values, fields[j].name))
                } else {
                    Ok(ColumnView::Null(values.len()))
                }
            },
    )
}

/// An encoded column has one row per value, has the type it was encoded
/// for, and meets the invariant of column arrays.
pub proof fn lemma_encoded_column(t: TypeView, values: Seq<ValueView>)
    ensures
        match encode_spec(t, values) {
            Ok(column) => {
                &&& column.len() == values.len()
                &&& column.data_type() == t
                &&& column.wf()
            },
            Err(_) => true,
        },
    decreases t,
{
    let n = values.len();
    if encode_spec(t, values) is Ok {
        let column = encode_spec(t, values)->Ok_0;
        match t {
            TypeView::List(element) => {
                let flat = flattened(values, n as int);
                lemma_encoded_column(*element, flat);
                assert forall|k: int| 0 <= k < n implies offsets_of(values)[k] <= #[trigger] offsets_of(
                    values,
                )[k + 1] by {
                    assert(flattened(values, k + 1) == flattened(values, k) + items_of(values[k]));
                }
                assert(flattened(values, 0).len() == 0);
            },
            TypeView::Struct(fields) => {
                assert forall|j: int| 0 <= j < fields.len() implies {
                    &&& (#[trigger] column->Struct_columns[j]).len() == n
                    &&& column->Struct_columns[j].data_type() == fields[j].data_type
                    &&& column->Struct_columns[j].wf()
                } by {
                    lemma_struct_columns(fields, values, j);
                    lemma_encoded_column(fields[j].data_type, projected(values, fields[j].name));
                }
                assert(column.data_type()->Struct_0 =~= fields);
            },
            _ => {},
        }
    }
}

/// Where encoding as a struct type succeeds, the outcome of each field is
/// the column of that field.
pub proof fn lemma_struct_columns(fields: Seq<FieldView>, values: Seq<ValueView>, j: int)
    requires
        0 <= j < fields.len(),
    ensures
        match encode_spec(TypeView::Struct(fields), values) {
            Ok(column) => {
                &&& column is Struct
                &&& column->Struct_columns.len() == fields.len()
                &&& field_outcomes(fields, values)[j] == Ok::<ColumnView, ConvertErrorView>(
                    column->Struct_columns[j],
                )
            },
            Err(_) => true,
        },
{
    let t = TypeView::Struct(fields);
    if encode_spec(t, values) is Ok {
        let outcomes = field_outcomes(fields, values);
        lemma_first_where(outcomes, failed(), fields.len() as int);
        assert(!failed()(outcomes[j]));
    }
}

/// The views of a sequence of borrowed values.
pub open spec fn value_views(values: Seq<&Value>) -> Seq<ValueView> {
    Seq::new(values.len(), |i: int| values[i]@)
}

/// The views of a sequence of values.
pub open spec fn owned_views(values: Seq<Value>) -> Seq<ValueView> {
    Seq::new(values.len(), |i: int| values[i]@)
}

/// If `t` takes every value before `row` and not the one at `row`,
/// encoding fails with the type mismatch at `row`.
pub proof fn lemma_rejected_at(t: TypeView, values: Seq<ValueView>, row: int)
    requires
        0 <= row < values.len(),
        !accepts(t, values[row]),
        forall|i: int| 0 <= i < row ==> accepts(t, #[trigger] values[i]),
    ensures
        encode_spec(t, values) == Err::<ColumnView, ConvertErrorView>(
            ConvertErrorView::TypeMismatch { row: row as nat, expected: t },
        ),
{
    let p = rejected_by(t);
    assert(p(values[row]));
    assert forall|i: int| 0 <= i < row implies !p(#[trigger] values[i]) by {
        assert(accepts(t, values[i]));
    }
    lemma_first_where_found(values, p, values.len() as int, row);
}

/// If `t` takes every value, encoding does not fail with a type mismatch
/// of its own rows.
pub proof fn lemma_all_accepted(t: TypeView, values: Seq<ValueView>)
    requires
        forall|i: int| 0 <= i < values.len() ==> accepts(t, #[trigger] values[i]),
    ensures
        first_where(values, rejected_by(t), values.len() as int) == values.len(),
{
    let p = rejected_by(t);
    assert forall|i: int| 0 <= i < values.len() implies !p(#[trigger] values[i]) by {
        assert(accepts(t, values[i]));
    }
    lemma_first_where_absent(values, p, values.len() as int);
}

/// The truth value that a value holds, if it is one.
fn as_bool(v: &Value) -> (r: Option<bool>)
    ensures
        r == (if v@ is Bool { Some(v@->Bool_0) } else { None }),
{
    match v {
        Value::Bool(b) => Some(*b),
        _ => None,
    }
}

/// The integer that a value holds, if it is one that fits `i8`.
fn as_i8(v: &Value) -> (r: Option<i8>)
    ensures
        r == (if v@ is Int && i8::MIN <= v@->Int_0 <= i8::MAX { Some(v@->Int_0 as i8) } else { None }),
{
    match v {
        Value::Int(x) => if -0x80 <= *x && *x <= 0x7f { Some(*x as i8) } else { None },
        _ => None,
    }
}

/// The integer that a value holds, if it is one that fits `i16`.
fn as_i16(v: &Value) -> (r: Option<i16>)
    ensures
        r == (if v@ is Int && i16::MIN <= v@->Int_0 <= i16::MAX { Some(v@->Int_0 as i16) } else { None }),
{
    match v {
        Value::Int(x) => if -0x8000 <= *x && *x <= 0x7fff { Some(*x as i16) } else { None },
        _ => None,
    }
}

/// The integer that a value holds, if it is one that fits `i32`.
fn as_i32(v: &Value) -> (r: Option<i32>)
    ensures
        r == (if v@ is Int && i32::MIN <= v@->Int_0 <= i32::MAX { Some(v@->Int_0 as i32) } else { None }),
{
    match v {
        Value::Int(x) => if -0x8000_0000 <= *x && *x <= 0x7fff_ffff { Some(*x as i32) } else { None },
        _ => None,
    }
}

/// The integer that a value holds, if it is one that fits `i64`.
fn as_i64(v: &Value) -> (r: Option<i64>)
    ensures
        r == (if v@ is Int && i64::MIN <= v@->Int_0 <= i64::MAX { Some(v@->Int_0 as i64) } else { None }),
{
    match v {
        Value::Int(x) => if -0x8000_0000_0000_0000 <= *x && *x <= 0x7fff_ffff_ffff_ffff {
            Some(*x as i64)
        } else {
            None
        },
        _ => None,
    }
}

/// The integer that a value holds, if it is one that fits `u8`.
fn as_u8(v: &Value) -> (r: Option<u8>)
    ensures
        r == (if v@ is Int && 0 <= v@->Int_0 <= u8::MAX { Some(v@->Int_0 as u8) } else { None }),
{
    match v {
        Value::Int(x) => if 0 <= *x && *x <= 0xff { Some(*x as u8) } else { None },
        _ => None,
    }
}

/// The integer that a value holds, if it is one that fits `u16`.
fn as_u16(v: &Value) -> (r: Option<u16>)
    ensures
        r == (if v@ is Int && 0 <= v@->Int_0 <= u16::MAX { Some(v@->Int_0 as u16) } else { None }),
{
    match v {
        Value::Int(x) => if 0 <= *x && *x <= 0xffff { Some(*x as u16) } else { None },
        _ => None,
    }
}

/// The integer that a value holds, if it is one that fits `u32`.
fn as_u32(v: &Value) -> (r: Option<u32>)
    ensures
        r == (if v@ is Int && 0 <= v@->Int_0 <= u32::MAX { Some(v@->Int_0 as u32) } else { None }),
{
    match v {
        Value::Int(x) => if 0 <= *x && *x <= 0xffff_ffff { Some(*x as u32) } else { None },
        _ => None,
    }
}

/// The integer that a value holds, if it is one that fits `u64`.
fn as_u64(v: &Value) -> (r: Option<u64>)
    ensures
        r == (if v@ is Int && 0 <= v@->Int_0 <= u64::MAX { Some(v@->Int_0 as u64) } else { None }),
{
    match v {
        Value::Int(x) => if 0 <= *x && *x <= 0xffff_ffff_ffff_ffff { Some(*x as u64) } else { None },
        _ => None,
    }
}

/// The bit pattern that a value holds, if it is a single-precision number.
fn as_single(v: &Value) -> (r: Option<u32>)
    ensures
        r == (if v@ is Float32 { Some(v@->Float32_0) } else { None }),
{
    match v {
        Value::Float32(bits) => Some(*bits),
        _ => None,
    }
}

/// The bit pattern that a value holds, if it is a double-precision number.
fn as_double(v: &Value) -> (r: Option<u64>)
    ensures
        r == (if v@ is Float64 { Some(v@->Float64_0) } else { None }),
{
    match v {
        Value::Float64(bits) => Some(*bits),
        _ => None,
    }
}

/// A copy of the text that a value holds, if it is text.
fn as_text(v: &Value) -> (r: Option<String>)
    ensures
        r is Some <==> v@ is Str,
        r is Some ==> r->Some_0@ == v@->Str_0,
{
    match v {
        Value::Str(s) => Some(s.clone()),
        _ => None,
    }
}

/// A copy of the bytes that a value holds, if it is a byte sequence.
fn as_bytes(v: &Value) -> (r: Option<Vec<u8>>)
    ensures
        r is Some <==> v@ is Bytes,
        r is Some ==> r->Some_0@ == v@->Bytes_0,
{
    match v {
        Value::Bytes(b) => Some(b.clone()),
        _ => None,
    }
}

/// A copy of the text of the JSON document that a value holds, if it is one.
fn as_json(v: &Value) -> (r: Option<String>)
    ensures
        r is Some <==> v@ is Json,
        r is Some ==> r->Some_0@ == v@->Json_0,
{
    match v {
        Value::Json(s) => Some(s.clone()),
        _ => None,
    }
}

/// The UTF-8 bytes of the text of the decimal number that a value holds, if it is one.
fn as_decimal(v: &Value) -> (r: Option<Vec<u8>>)
    ensures
        r is Some <==> v@ is Decimal,
        r is Some ==> r->Some_0@ == encode_utf8(v@->Decimal_0),
{
    match v {
        Value::Decimal(s) => Some(slice_to_vec(s.as_str().as_bytes())),
        _ => None,
    }
}

/// One native value per row of a leaf column of type `data_type`, drawn by
/// `extract` from each value that is not null; or the type mismatch at the
/// first row from whose value `extract` draws nothing.
fn leaf_rows<T, F: Fn(&Value) -> Option<T>>(data_type: &DataType, values: &Vec<&Value>, extract: F) -> (r:
    Result<Vec<Option<T>>, ConvertError>)
    requires
        forall|v: &Value| call_requires(extract, (v,)),
        forall|v: &Value, x: Option<T>|
            call_ensures(extract, (v,), x) ==> (x is Some <==> !(v@ is Null) && accepts(data_type@, v@)),
    ensures
        match r {
            Ok(rows) => {
                &&& rows.len() == values.len()
                &&& first_where(value_views(values@), rejected_by(data_type@), values.len() as int)
                    == values.len()
                &&& forall|i: int|
                    0 <= i < values.len() ==> if values[i]@ is Null {
                        #[trigger] rows[i] is None
                    } else {
                        rows[i] is Some && call_ensures(extract, (values[i],), rows[i])
                    }
            },
            Err(e) => encode_spec(data_type@, value_views(values@)) == Err::<
                ColumnView,
                ConvertErrorView,
            >(e@),
        },
{
    let ghost views = value_views(values@);
    let mut rows: Vec<Option<T>> = Vec::with_capacity(values.len());
    let mut i: usize = 0;
    while i < values.len()
        invariant
            i <= values.len(),
            rows.len() == i,
            views == value_views(values@),
            forall|v: &Value| call_requires(extract, (v,)),
            forall|v: &Value, x: Option<T>|
                call_ensures(extract, (v,), x) ==> (x is Some <==> !(v@ is Null) && accepts(
                    data_type@,
                    v@,
                )),
            forall|k: int| 0 <= k < i ==> accepts(data_type@, #[trigger] views[k]),
            forall|k: int|
                0 <= k < i ==> if values[k]@ is Null {
                    #[trigger] rows[k] is None
                } else {
                    rows[k] is Some && call_ensures(extract, (values[k],), rows[k])
                },
        decreases values.len() - i,
    {
        let value: &Value = values[i];
        match value {
            Value::Null => {
                rows.push(None);
            },
            _ => {
                let native = extract(value);
                if native.is_none() {
                    proof {
                        assert(!accepts(data_type@, views[i as int]));
                        lemma_rejected_at(data_type@, views, i as int);
                    }
                    return Err(mismatch(i, data_type));
                }
                rows.push(native);
            },
        }
        i += 1;
    }
    proof {
        lemma_all_accepted(data_type@, views);
    }
    Ok(rows)
}

/// The type mismatch at `row` of a column of type `data_type`.
fn mismatch(row: usize, data_type: &DataType) -> (e: ConvertError)
    ensures
        e@ == (ConvertErrorView::TypeMismatch { row: row as nat, expected: data_type@ }),
{
    ConvertError::TypeMismatch { row, expected: data_type.duplicate() }
}

/// The length inconsistency of a column of type `data_type`.
fn inconsistent(data_type: &DataType) -> (e: ConvertError)
    ensures
        e@ == (ConvertErrorView::LengthInconsistency { data_type: data_type@ }),
{
    ConvertError::LengthInconsistency { data_type: data_type.duplicate() }
}

/// Whether the text of all rows together is at most `limit` bytes long.
fn text_within(rows: &Vec<Option<String>>, limit: u64) -> (r: bool)
    ensures
        r == (text_total(text_rows(rows@), rows.len() as int) <= limit),
{
    let mut total: u64 = 0;
    let mut i: usize = 0;
    while i < rows.len()
        invariant
            i <= rows.len(),
            total == text_total(text_rows(rows@), i as int),
            total <= limit,
        decreases rows.len() - i,
    {
        let size: usize = match &rows[i] {
            Some(s) => s.as_str().as_bytes().len(),
            None => 0,
        };
        assert(text_total(text_rows(rows@), i + 1) == total + size);
        if size as u64 > limit - total {
            proof {
                lemma_text_total_grows(text_rows(rows@), i + 1, rows.len() as int);
            }
            return false;
        }
        total = total + size as u64;
        i += 1;
    }
    true
}

/// Whether all rows together are at most `limit` bytes long.
fn bytes_within(rows: &Vec<Option<Vec<u8>>>, limit: u64) -> (r: bool)
    ensures
        r == (byte_total(byte_rows(rows@), rows.len() as int) <= limit),
{
    let mut total: u64 = 0;
    let mut i: usize = 0;
    while i < rows.len()
        invariant
            i <= rows.len(),
            total == byte_total(byte_rows(rows@), i as int),
            total <= limit,
        decreases rows.len() - i,
    {
        let size: usize = match &rows[i] {
            Some(b) => b.len(),
            None => 0,
        };
        assert(byte_total(byte_rows(rows@), i + 1) == total + size);
        if size as u64 > limit - total {
            proof {
                lemma_byte_total_grows(byte_rows(rows@), i + 1, rows.len() as int);
            }
            return false;
        }
        total = total + size as u64;
        i += 1;
    }
    true
}

/// The bytes of the first `n` rows are no more than those of the first
/// `m`, for `n <= m`.
pub proof fn lemma_text_total_grows(rows: Seq<Option<Seq<char>>>, n: int, m: int)
    requires
        n <= m,
    ensures
        text_total(rows, n) <= text_total(rows, m),
    decreases m - n,
{
    if n < m {
        lemma_text_total_grows(rows, n, m - 1);
    }
}

/// The bytes of the first `n` rows are no more than those of the first
/// `m`, for `n <= m`.
pub proof fn lemma_byte_total_grows(rows: Seq<Option<Seq<u8>>>, n: int, m: int)
    requires
        n <= m,
    ensures
        byte_total(rows, n) <= byte_total(rows, m),
    decreases m - n,
{
    if n < m {
        lemma_byte_total_grows(rows, n, m - 1);
    }
}

/// Encodes values as a column of a type that has no child columns.
fn encode_leaf(data_type: &DataType, values: &Vec<&Value>) -> (r: Result<ArrowArray, ConvertError>)
    requires
        !(data_type is List),
        !(data_type is Struct),
    ensures
        match r {
            Ok(a) => encode_spec(data_type@, value_views(values@)) == Ok::<ColumnView, ConvertErrorView>(
                array_view(a),
            ),
            Err(e) => encode_spec(data_type@, value_views(values@)) == Err::<
                ColumnView,
                ConvertErrorView,
            >(e@),
        },
{
    let ghost t = data_type@;
    let ghost views = value_views(values@);
    match data_type {
        DataType::Boolean => match leaf_rows(data_type, values, as_bool) {
            Ok(rows) => {
                assert(rows@ =~= leaf_column(t, views)->Boolean_0);
                Ok(new_boolean_array(rows))
            },
            Err(e) => Err(e),
        },
        DataType::Int8 => match leaf_rows(data_type, values, as_i8) {
            Ok(rows) => {
                assert(rows@ =~= leaf_column(t, views)->Int8_0);
                Ok(new_int8_array(rows))
            },
            Err(e) => Err(e),
        },
        DataType::Int16 => match leaf_rows(data_type, values, as_i16) {
            Ok(rows) => {
                assert(rows@ =~= leaf_column(t, views)->Int16_0);
                Ok(new_int16_array(rows))
            },
            Err(e) => Err(e),
        },
        DataType::Int32 => match leaf_rows(data_type, values, as_i32) {
            Ok(rows) => {
                assert(rows@ =~= leaf_column(t, views)->Int32_0);
                Ok(new_int32_array(rows))
            },
            Err(e) => Err(e),
        },
        DataType::Int64 => match leaf_rows(data_type, values, as_i64) {
            Ok(rows) => {
                assert(rows@ =~= leaf_column(t, views)->Int64_0);
                Ok(new_int64_array(rows))
            },
            Err(e) => Err(e),
        },
        DataType::UInt8 => match leaf_rows(data_type, values, as_u8) {
            Ok(rows) => {
                assert(rows@ =~= leaf_column(t, views)->UInt8_0);
                Ok(new_uint8_array(rows))
            },
            Err(e) => Err(e),
        },
        DataType::UInt16 => match leaf_rows(data_type, values, as_u16) {
            Ok(rows) => {
                assert(rows@ =~= leaf_column(t, views)->UInt16_0);
                Ok(new_uint16_array(rows))
            },
            Err(e) => Err(e),
        },
        DataType::UInt32 => match leaf_rows(data_type, values, as_u32) {
            Ok(rows) => {
                assert(rows@ =~= leaf_column(t, views)->UInt32_0);
                Ok(new_uint32_array(rows))
            },
            Err(e) => Err(e),
        },
        DataType::UInt64 => match leaf_rows(data_type, values, as_u64) {
            Ok(rows) => {
                assert(rows@ =~= leaf_column(t, views)->UInt64_0);
                Ok(new_uint64_array(rows))
            },
            Err(e) => Err(e),
        },
        DataType::Float32 => match leaf_rows(data_type, values, as_single) {
            Ok(rows) => {
                assert(rows@ =~= leaf_column(t, views)->Float32_0);
                Ok(new_float32_array(rows))
            },
            Err(e) => Err(e),
        },
        DataType::Float64 => match leaf_rows(data_type, values, as_double) {
            Ok(rows) => {
                assert(rows@ =~= leaf_column(t, views)->Float64_0);
                Ok(new_float64_array(rows))
            },
            Err(e) => Err(e),
        },
        DataType::Utf8 => match leaf_rows(data_type, values, as_text) {
            Ok(rows) => {
                assert(text_rows(rows@) =~= leaf_column(t, views)->Utf8_0);
                if text_within(&rows, 0x7fff_ffff) {
                    Ok(new_utf8_array(rows))
                } else {
                    Err(inconsistent(data_type))
                }
            },
            Err(e) => Err(e),
        },
        DataType::Binary => match leaf_rows(data_type, values, as_bytes) {
            Ok(rows) => {
                assert(byte_rows(rows@) =~= leaf_column(t, views)->Binary_0);
                if bytes_within(&rows, 0x7fff_ffff) {
                    Ok(new_binary_array(rows))
                } else {
                    Err(inconsistent(data_type))
                }
            },
            Err(e) => Err(e),
        },
        DataType::Json => match leaf_rows(data_type, values, as_json) {
            Ok(rows) => {
                assert(text_rows(rows@) =~= leaf_column(t, views)->Json_0);
                if text_within(&rows, 0x7fff_ffff_ffff_ffff) {
                    Ok(new_large_utf8_array(rows))
                } else {
                    Err(inconsistent(data_type))
                }
            },
            Err(e) => Err(e),
        },
        DataType::Decimal => match leaf_rows(data_type, values, as_decimal) {
            Ok(rows) => {
                assert(byte_rows(rows@) =~= leaf_column(t, views)->Decimal_0);
                if bytes_within(&rows, 0x7fff_ffff_ffff_ffff) {
                    Ok(new_large_binary_array(rows))
                } else {
                    Err(inconsistent(data_type))
                }
            },
            Err(e) => Err(e),
        },
        _ => {
            proof {
                lemma_all_accepted(t, views);
            }
            Ok(new_null_array(values.len()))
        },
    }
}

/// The elements of the first `n` values are no more than those of the
/// first `m`, for `n <= m`.
pub proof fn lemma_flattened_grows(values: Seq<ValueView>, n: int, m: int)
    requires
        n <= m,
    ensures
        flattened(values, n).len() <= flattened(values, m).len(),
    decreases m - n,
{
    if n < m {
        lemma_flattened_grows(values, n, m - 1);
    }
}

/// Encodes values as a list column: the elements of all rows go into one
/// child column, and each row keeps the offsets of its span.
fn encode_list(data_type: &DataType, values: &Vec<&Value>) -> (r: Result<ArrowArray, ConvertError>)
    requires
        data_type is List,
    ensures
        match r {
            Ok(a) => encode_spec(data_type@, value_views(values@)) == Ok::<ColumnView, ConvertErrorView>(
                array_view(a),
            ),
            Err(e) => encode_spec(data_type@, value_views(values@)) == Err::<
                ColumnView,
                ConvertErrorView,
            >(e@),
        },
    decreases data_type, 0nat,
{
    let ghost t = data_type@;
    let ghost views = value_views(values@);
    let n = values.len();
    let mut validity: Vec<bool> = Vec::with_capacity(n);
    let mut i: usize = 0;
    while i < n
        invariant
            i <= n,
            n == values.len(),
            views == value_views(values@),
            t == data_type@,
            data_type is List,
            validity.len() == i,
            forall|k: int| 0 <= k < i ==> accepts(t, #[trigger] views[k]),
            forall|k: int| 0 <= k < i ==> validity[k] == !(views[k] is Null),
        decreases n - i,
    {
        match values[i] {
            Value::Null => {
                validity.push(false);
            },
            Value::List(_) => {
                validity.push(true);
            },
            _ => {
                proof {
                    lemma_rejected_at(t, views, i as int);
                }
                return Err(mismatch(i, data_type));
            },
        }
        i += 1;
    }
    proof {
        lemma_all_accepted(t, views);
        assert(validity@ =~= validity_of(views));
    }
    let mut flat: Vec<&Value> = Vec::new();
    let mut offsets: Vec<i32> = Vec::new();
    offsets.push(0);
    let mut i: usize = 0;
    while i < n
        invariant
            i <= n,
            n == values.len(),
            views == value_views(values@),
            t == data_type@,
            data_type is List,
            first_where(views, rejected_by(t), n as int) == n,
            value_views(flat@) == flattened(views, i as int),
            flat.len() <= i32::MAX,
            offsets.len() == i + 1,
            forall|k: int| 0 <= k <= i ==> #[trigger] offsets[k] == flattened(views, k).len(),
        decreases n - i,
    {
        match values[i] {
            Value::List(items) => {
                let mut k: usize = 0;
                while k < items.len()
                    invariant
                        k <= items.len(),
                        i < n,
                        n == values.len(),
                        views == value_views(values@),
                        *values[i as int] == Value::List(*items),
                        value_views(flat@) == flattened(views, i as int) + items_of(views[i as int]).subrange(
                            0,
                            k as int,
                        ),
                    decreases items.len() - k,
                {
                    let ghost before = value_views(flat@);
                    flat.push(&items[k]);
                    proof {
                        let whole = items_of(views[i as int]);
                        assert(whole[k as int] == items[k as int]@);
                        assert(value_views(flat@) =~= before.push(whole[k as int]));
                        assert(whole.subrange(0, k + 1) =~= whole.subrange(0, k as int).push(
                            whole[k as int],
                        ));
                        assert(value_views(flat@) =~= flattened(views, i as int) + whole.subrange(0, k + 1));
                    }
                    k += 1;
                }
                proof {
                    let whole = items_of(views[i as int]);
                    assert(whole.subrange(0, items.len() as int) =~= whole);
                }
            },
            _ => {
                proof {
                    assert(items_of(views[i as int]) =~= Seq::empty());
                    assert(flattened(views, i as int) + items_of(views[i as int]) =~= flattened(
                        views,
                        i as int,
                    ));
                }
            },
        }
        assert(value_views(flat@) == flattened(views, i + 1));
        if flat.len() > 0x7fff_ffff {
            proof {
                lemma_flattened_grows(views, i + 1, n as int);
            }
            return Err(inconsistent(data_type));
        }
        offsets.push(flat.len() as i32);
        i += 1;
    }
    let element: &DataType = match data_type {
        DataType::List(element) => element,
        _ => unreached(),
    };
    match encode(element, &flat) {
        Ok(child) => {
            proof {
                lemma_encoded_column(element@, value_views(flat@));
                assert forall|k: int| 0 <= k < n implies offsets[k] <= #[trigger] offsets[k + 1] by {
                    lemma_flattened_grows(views, k, k + 1);
                }
                assert(int_offsets(offsets@) =~= offsets_of(views));
            }
            Ok(new_list_array(offsets, child, validity))
        },
        Err(e) => Err(e),
    }
}

/// Encodes values as a struct column, field by field: the field is read
/// off every value, and what was read is encoded as the field's column.
fn encode_struct(data_type: &DataType, values: &Vec<&Value>) -> (r: Result<ArrowArray, ConvertError>)
    requires
        data_type is Struct,
    ensures
        match r {
            Ok(a) => encode_spec(data_type@, value_views(values@)) == Ok::<ColumnView, ConvertErrorView>(
                array_view(a),
            ),
            Err(e) => encode_spec(data_type@, value_views(values@)) == Err::<
                ColumnView,
                ConvertErrorView,
            >(e@),
        },
    decreases data_type, 0nat,
{
    let ghost t = data_type@;
    let ghost views = value_views(values@);
    let ghost kinds = data_type@->Struct_0;
    let ghost outcomes = field_outcomes(kinds, views);
    let n = values.len();
    let fields: &Vec<Field> = match data_type {
        DataType::Struct(fields) => fields,
        _ => unreached(),
    };
    let absent = Value::Null;
    let mut names: Vec<String> = Vec::with_capacity(fields.len());
    let mut columns: Vec<ArrowArray> = Vec::with_capacity(fields.len());
    proof {
        lemma_all_accepted(t, views);
        assert(kinds.len() == fields.len());
    }
    let mut j: usize = 0;
    while j < fields.len()
        invariant
            j <= fields.len(),
            n == values.len(),
            views == value_views(values@),
            t == data_type@,
            *data_type == DataType::Struct(*fields),
            kinds == t->Struct_0,
            kinds.len() == fields.len(),
            outcomes == field_outcomes(kinds, views),
            absent@ is Null,
            names.len() == j,
            columns.len() == j,
            forall|q: int| 0 <= q < j ==> #[trigger] names[q]@ == kinds[q].name,
            forall|q: int|
                0 <= q < j ==> outcomes[q] == Ok::<ColumnView, ConvertErrorView>(
                    array_view(#[trigger] columns[q]),
                ),
        decreases fields.len() - j,
    {
        let field = &fields[j];
        proof {
            assert(data_type->Struct_0 == *fields);
            assert(decreases_to!(*fields => fields[j as int]));
            assert(kinds[j as int] == fields[j as int]@);
        }
        let ghost name = kinds[j as int].name;
        proof {
            assert forall|q: int| 0 <= q < j implies (#[trigger] outcomes[q]) is Ok by {
                assert(outcomes[q] == Ok::<ColumnView, ConvertErrorView>(array_view(columns[q])));
            }
        }
        let mut read: Vec<&Value> = Vec::with_capacity(n);
        let mut i: usize = 0;
        while i < n
            invariant
                i <= n,
                n == values.len(),
                views == value_views(values@),
                name == field.name@,
                name == kinds[j as int].name,
                j < kinds.len(),
                t == data_type@,
                t == TypeView::Struct(kinds),
                outcomes == field_outcomes(kinds, views),
                forall|q: int| 0 <= q < j ==> (#[trigger] outcomes[q]) is Ok,
                absent@ is Null,
                read.len() == i,
                forall|k: int| 0 <= k < i ==> !lacks(name)(#[trigger] views[k]),
                forall|k: int| 0 <= k < i ==> (#[trigger] read[k])@ == projected(views, name)[k],
            decreases n - i,
        {
            let value: &Value = values[i];
            match value {
                Value::Null => {
                    read.push(&absent);
                },
                _ => match value.field(&field.name) {
                    Some(inner) => {
                        read.push(inner);
                    },
                    None => {
                        proof {
                            assert(lacks(name)(views[i as int]));
                            lemma_first_where_found(views, lacks(name), n as int, i as int);
                            assert(outcomes[j as int] == Err::<ColumnView, ConvertErrorView>(
                                ConvertErrorView::TypeMismatch { row: i as nat, expected: t },
                            ));
                            lemma_struct_fails(kinds, views, j as int);
                        }
                        return Err(mismatch(i, data_type));
                    },
                },
            }
            i += 1;
        }
        proof {
            lemma_first_where_absent(views, lacks(name), n as int);
            assert(value_views(read@) =~= projected(views, name));
        }
        match encode(&field.data_type, &read) {
            Ok(column) => {
                names.push(field.name.clone());
                columns.push(column);
            },
            Err(e) => {
                proof {
                    assert(outcomes[j as int] == Err::<ColumnView, ConvertErrorView>(e@));
                    lemma_struct_fails(kinds, views, j as int);
                }
                return Err(e);
            },
        }
        j += 1;
    }
    proof {
        assert forall|q: int| 0 <= q < kinds.len() implies !failed()(#[trigger] outcomes[q]) by {
            assert(outcomes[q] == Ok::<ColumnView, ConvertErrorView>(array_view(columns[q])));
        }
        lemma_first_where_absent(outcomes, failed(), kinds.len() as int);
    }
    if fields.len() == 0 && n > 0 {
        return Err(inconsistent(data_type));
    }
    let mut validity: Vec<bool> = Vec::with_capacity(n);
    let mut i: usize = 0;
    while i < n
        invariant
            i <= n,
            n == values.len(),
            views == value_views(values@),
            validity.len() == i,
            forall|k: int| 0 <= k < i ==> validity[k] == !(views[k] is Null),
        decreases n - i,
    {
        match values[i] {
            Value::Null => {
                validity.push(false);
            },
            _ => {
                validity.push(true);
            },
        }
        i += 1;
    }
    proof {
        assert(validity@ =~= validity_of(views));
        assert(name_views(names@) =~= Seq::new(kinds.len(), |q: int| kinds[q].name));
        assert(array_views(columns@) =~= Seq::new(kinds.len(), |q: int| outcomes[q]->Ok_0));
        assert forall|q: int| 0 <= q < columns.len() implies array_view(#[trigger] columns[q]).len()
            == validity.len() by {
            lemma_encoded_column(kinds[q].data_type, projected(views, kinds[q].name));
            lemma_first_where(views, lacks(kinds[q].name), n as int);
        }
    }
    Ok(new_struct_array(&names, columns, validity))
}

/// If field `j` is the first whose outcome is an error, encoding as the
/// struct type fails with that error.
pub proof fn lemma_struct_fails(fields: Seq<FieldView>, values: Seq<ValueView>, j: int)
    requires
        0 <= j < fields.len(),
        field_outcomes(fields, values)[j] is Err,
        forall|q: int| 0 <= q < j ==> (#[trigger] field_outcomes(fields, values)[q]) is Ok,
    ensures
        encode_spec(TypeView::Struct(fields), values) == Err::<ColumnView, ConvertErrorView>(
            field_outcomes(fields, values)[j]->Err_0,
        ),
{
    let t = TypeView::Struct(fields);
    let outcomes = field_outcomes(fields, values);
    assert forall|i: int| 0 <= i < values.len() implies accepts(t, #[trigger] values[i]) by {}
    lemma_all_accepted(t, values);
    assert(failed()(outcomes[j]));
    assert forall|q: int| 0 <= q < j implies !failed()(#[trigger] outcomes[q]) by {}
    lemma_first_where_found(outcomes, failed(), fields.len() as int, j);
}

/// Encodes one borrowed value per row as a column of the given type.
pub(crate) fn encode(data_type: &DataType, values: &Vec<&Value>) -> (r: Result<ArrowArray, ConvertError>)
    ensures
        match r {
            Ok(a) => encode_spec(data_type@, value_views(values@)) == Ok::<ColumnView, ConvertErrorView>(
                array_view(a),
            ),
            Err(e) => encode_spec(data_type@, value_views(values@)) == Err::<
                ColumnView,
                ConvertErrorView,
            >(e@),
        },
    decreases data_type, 1nat,
{
    match data_type {
        DataType::List(_) => encode_list(data_type, values),
        DataType::Struct(_) => encode_struct(data_type, values),
        _ => encode_leaf(data_type, values),
    }
}

/// Build a column array of the given type from one dynamic value per row.
///
/// The result is the column that [`encode_spec`] describes, and the error
/// is the one that it describes: no array comes back unless every row was
/// encoded. The array has one row per value, with a null row wherever the
/// value is null.
///
/// No value is coerced: a column takes the values of its own kind only, an
/// integer column those of its range. A JSON column takes
/// [`Value::Json`] and a decimal column [`Value::Decimal`], each by its
/// text as the host wrote it.
pub fn build_array(data_type: &DataType, values: &[Value]) -> (r: Result<ArrowArray, ConvertError>)
    ensures
        match r {
            Ok(a) => {
                &&& encode_spec(data_type@, owned_views(values@)) == Ok::<ColumnView, ConvertErrorView>(
                    array_view(a),
                )
                &&& array_view(a).len() == values.len()
                &&& array_view(a).data_type() == data_type@
                &&& array_view(a).wf()
                &&& forall|i: int|
                    0 <= i < values.len() && values[i]@ is Null ==> array_view(a).is_null(i)
            },
            Err(e) => encode_spec(data_type@, owned_views(values@)) == Err::<
                ColumnView,
                ConvertErrorView,
            >(e@),
        },
{
    let mut borrowed: Vec<&Value> = Vec::with_capacity(values.len());
    let mut i: usize = 0;
    while i < values.len()
        invariant
            i <= values.len(),
            borrowed.len() == i,
            forall|k: int| 0 <= k < i ==> *(#[trigger] borrowed[k]) == values[k],
        decreases values.len() - i,
    {
        borrowed.push(&values[i]);
        i += 1;
    }
    proof {
        assert(value_views(borrowed@) =~= owned_views(values@));
        lemma_encoded_column(data_type@, owned_views(values@));
        lemma_encoded_nulls(data_type@, owned_views(values@));
    }
    encode(data_type, &borrowed)
}

/// An encoded column has a null row wherever the value is null.
pub proof fn lemma_encoded_nulls(t: TypeView, values: Seq<ValueView>)
    ensures
        match encode_spec(t, values) {
            Ok(column) => forall|i: int|
                0 <= i < values.len() && values[i] is Null ==> column.is_null(i),
            Err(_) => true,
        },
{
}

} // verus!
