//! Arrow arrays as the physical storage of columns.
//!
//! Everything in this module that is marked `external_body` is trusted:
//! Verus takes its contract for granted. Each such function builds or reads
//! an array through the Arrow crates, and its contract states, over
//! [`array_view`], what that does to the contents of the arrays involved.
//! The last one is the standard library's check of UTF-8.

use arrow_array::cast::AsArray;
use arrow_array::Array;
use std::sync::Arc;
use vstd::prelude::*;
use vstd::utf8::encode_utf8;
use crate::column::ColumnView;

verus! {

/// A column array held by Arrow.
///
/// Verified code never looks inside: it reads and builds arrays through the
/// functions of this module and reasons about them through [`array_view`].
#[verifier::external_body]
#[derive(Debug)]
pub struct ArrowArray {
    pub inner: arrow_array::ArrayRef,
}

/// What an Arrow array holds: its logical contents, row by row, with a null
/// row wherever Arrow's validity bitmap marks one.
pub uninterp spec fn array_view(a: ArrowArray) -> ColumnView;

impl View for ArrowArray {
    type V = ColumnView;

    open spec fn view(&self) -> ColumnView {
        array_view(*self)
    }
}

/// The rows of a text column as character sequences.
pub open spec fn text_rows(rows: Seq<Option<String>>) -> Seq<Option<Seq<char>>> {
    Seq::new(
        rows.len(),
        |i: int|
            match rows[i] {
                Some(s) => Some(s@),
                None => None,
            },
    )
}

/// The rows of a binary column as byte sequences.
pub open spec fn byte_rows(rows: Seq<Option<Vec<u8>>>) -> Seq<Option<Seq<u8>>> {
    Seq::new(
        rows.len(),
        |i: int|
            match rows[i] {
                Some(b) => Some(b@),
                None => None,
            },
    )
}

/// The number of bytes that the first `n` rows of a binary column hold.
pub open spec fn byte_total(rows: Seq<Option<Seq<u8>>>, n: int) -> int
    decreases n,
{
    if n <= 0 {
        0
    } else {
        byte_total(rows, n - 1) + match rows[n - 1] {
            Some(b) => b.len() as int,
            None => 0,
        }
    }
}

/// The number of bytes that the first `n` rows of a text column hold in
/// UTF-8.
pub open spec fn text_total(rows: Seq<Option<Seq<char>>>, n: int) -> int
    decreases n,
{
    if n <= 0 {
        0
    } else {
        text_total(rows, n - 1) + match rows[n - 1] {
            Some(s) => encode_utf8(s).len() as int,
            None => 0,
        }
    }
}

/// List offsets as mathematical integers.
pub open spec fn int_offsets(offsets: Seq<i32>) -> Seq<int> {
    Seq::new(offsets.len(), |k: int| offsets[k] as int)
}

/// The contents of each of a sequence of arrays.
pub open spec fn array_views(arrays: Seq<ArrowArray>) -> Seq<ColumnView> {
    Seq::new(arrays.len(), |j: int| array_view(arrays[j]))
}

/// The names of a sequence of fields as character sequences.
pub open spec fn name_views(names: Seq<String>) -> Seq<Seq<char>> {
    Seq::new(names.len(), |j: int| names[j]@)
}

/// `Array::len`: the number of rows.
#[verifier::external_body]
pub(crate) fn array_len(a: &ArrowArray) -> (n: usize)
    ensures
        n == array_view(*a).len(),
{
    a.inner.len()
}

/// `Array::is_null`: whether the validity bitmap marks row `i` null. An
/// array of the null type has no bitmap, so it is left out.
#[verifier::external_body]
pub(crate) fn array_is_null(a: &ArrowArray, i: usize) -> (r: bool)
    requires
        !(array_view(*a) is Null),
        i < array_view(*a).len(),
    ensures
        r == array_view(*a).is_null(i as int),
{
    a.inner.is_null(i)
}

/// `NullArray::new`: an array of the null type with `len` rows.
#[verifier::external_body]
pub(crate) fn new_null_array(len: usize) -> (a: ArrowArray)
    ensures
        array_view(a) == ColumnView::Null(len as nat),
{
    ArrowArray { inner: Arc::new(arrow_array::NullArray::new(len)) }
}

/// `BooleanArray::from`: the array holds the given rows in order.
#[verifier::external_body]
pub(crate) fn new_boolean_array(rows: Vec<Option<bool>>) -> (a: ArrowArray)
    ensures
        array_view(a) == ColumnView::Boolean(rows@),
{
    ArrowArray { inner: Arc::new(arrow_array::BooleanArray::from(rows)) }
}

/// `Int8Array::from`: the array holds the given rows in order.
#[verifier::external_body]
pub(crate) fn new_int8_array(rows: Vec<Option<i8>>) -> (a: ArrowArray)
    ensures
        array_view(a) == ColumnView::Int8(rows@),
{
    ArrowArray { inner: Arc::new(arrow_array::Int8Array::from(rows)) }
}

/// `Int16Array::from`: the array holds the given rows in order.
#[verifier::external_body]
pub(crate) fn new_int16_array(rows: Vec<Option<i16>>) -> (a: ArrowArray)
    ensures
        array_view(a) == ColumnView::Int16(rows@),
{
    ArrowArray { inner: Arc::new(arrow_array::Int16Array::from(rows)) }
}

/// `Int32Array::from`: the array holds the given rows in order.
#[verifier::external_body]
pub(crate) fn new_int32_array(rows: Vec<Option<i32>>) -> (a: ArrowArray)
    ensures
        array_view(a) == ColumnView::Int32(rows@),
{
    ArrowArray { inner: Arc::new(arrow_array::Int32Array::from(rows)) }
}

/// `Int64Array::from`: the array holds the given rows in order.
#[verifier::external_body]
pub(crate) fn new_int64_array(rows: Vec<Option<i64>>) -> (a: ArrowArray)
    ensures
        array_view(a) == ColumnView::Int64(rows@),
{
    ArrowArray { inner: Arc::new(arrow_array::Int64Array::from(rows)) }
}

/// `UInt8Array::from`: the array holds the given rows in order.
#[verifier::external_body]
pub(crate) fn new_uint8_array(rows: Vec<Option<u8>>) -> (a: ArrowArray)
    ensures
        array_view(a) == ColumnView::UInt8(rows@),
{
    ArrowArray { inner: Arc::new(arrow_array::UInt8Array::from(rows)) }
}

/// `UInt16Array::from`: the array holds the given rows in order.
#[verifier::external_body]
pub(crate) fn new_uint16_array(rows: Vec<Option<u16>>) -> (a: ArrowArray)
    ensures
        array_view(a) == ColumnView::UInt16(rows@),
{
    ArrowArray { inner: Arc::new(arrow_array::UInt16Array::from(rows)) }
}

/// `UInt32Array::from`: the array holds the given rows in order.
#[verifier::external_body]
pub(crate) fn new_uint32_array(rows: Vec<Option<u32>>) -> (a: ArrowArray)
    ensures
        array_view(a) == ColumnView::UInt32(rows@),
{
    ArrowArray { inner: Arc::new(arrow_array::UInt32Array::from(rows)) }
}

/// `UInt64Array::from`: the array holds the given rows in order.
#[verifier::external_body]
pub(crate) fn new_uint64_array(rows: Vec<Option<u64>>) -> (a: ArrowArray)
    ensures
        array_view(a) == ColumnView::UInt64(rows@),
{
    ArrowArray { inner: Arc::new(arrow_array::UInt64Array::from(rows)) }
}

/// `Float32Array::new` on the buffers of a `UInt32Array`: the array holds
/// the single-precision numbers whose bit patterns are the given rows.
#[verifier::external_body]
pub(crate) fn new_float32_array(rows: Vec<Option<u32>>) -> (a: ArrowArray)
    ensures
        array_view(a) == ColumnView::Float32(rows@),
{
    let (_, bits, nulls) = arrow_array::UInt32Array::from(rows).into_parts();
    let values = arrow_buffer::ScalarBuffer::from(bits.into_inner());
    ArrowArray { inner: Arc::new(arrow_array::Float32Array::new(values, nulls)) }
}

/// `Float64Array::new` on the buffers of a `UInt64Array`: the array holds
/// the double-precision numbers whose bit patterns are the given rows.
#[verifier::external_body]
pub(crate) fn new_float64_array(rows: Vec<Option<u64>>) -> (a: ArrowArray)
    ensures
        array_view(a) == ColumnView::Float64(rows@),
{
    let (_, bits, nulls) = arrow_array::UInt64Array::from(rows).into_parts();
    let values = arrow_buffer::ScalarBuffer::from(bits.into_inner());
    ArrowArray { inner: Arc::new(arrow_array::Float64Array::new(values, nulls)) }
}

/// `StringArray::from`: the array holds the given rows in order. Arrow
/// panics when the text of all rows together exceeds `i32::MAX` bytes.
#[verifier::external_body]
pub(crate) fn new_utf8_array(rows: Vec<Option<String>>) -> (a: ArrowArray)
    requires
        text_total(text_rows(rows@), rows.len() as int) <= i32::MAX,
    ensures
        array_view(a) == ColumnView::Utf8(text_rows(rows@)),
{
    ArrowArray { inner: Arc::new(arrow_array::StringArray::from(rows)) }
}

/// `LargeStringArray::from`: the array holds the given rows in order. Arrow
/// panics when the text of all rows together exceeds `i64::MAX` bytes.
#[verifier::external_body]
pub(crate) fn new_large_utf8_array(rows: Vec<Option<String>>) -> (a: ArrowArray)
    requires
        text_total(text_rows(rows@), rows.len() as int) <= i64::MAX,
    ensures
        array_view(a) == ColumnView::Json(text_rows(rows@)),
{
    ArrowArray { inner: Arc::new(arrow_array::LargeStringArray::from(rows)) }
}

/// `BinaryArray::from_iter`: the array holds the given rows in order.
/// Arrow panics when all rows together exceed `i32::MAX` bytes.
#[verifier::external_body]
pub(crate) fn new_binary_array(rows: Vec<Option<Vec<u8>>>) -> (a: ArrowArray)
    requires
        byte_total(byte_rows(rows@), rows.len() as int) <= i32::MAX,
    ensures
        array_view(a) == ColumnView::Binary(byte_rows(rows@)),
{
    ArrowArray { inner: Arc::new(arrow_array::BinaryArray::from_iter(rows)) }
}

/// `LargeBinaryArray::from_iter`: the array holds the given rows in order.
/// Arrow panics when all rows together exceed `i64::MAX` bytes.
#[verifier::external_body]
pub(crate) fn new_large_binary_array(rows: Vec<Option<Vec<u8>>>) -> (a: ArrowArray)
    requires
        byte_total(byte_rows(rows@), rows.len() as int) <= i64::MAX,
    ensures
        array_view(a) == ColumnView::Decimal(byte_rows(rows@)),
{
    ArrowArray { inner: Arc::new(arrow_array::LargeBinaryArray::from_iter(rows)) }
}

/// `ListArray::new` over `OffsetBuffer::new`: a list array with the given
/// offsets, child array and validity, whose element field is Arrow's
/// default list field, nullable. Arrow panics unless there is one more
/// offset than rows, the offsets start at or above zero and never decrease,
/// and the last offset lies within the child array.
#[verifier::external_body]
pub(crate) fn new_list_array(offsets: Vec<i32>, values: ArrowArray, validity: Vec<bool>) -> (a:
    ArrowArray)
    requires
        offsets.len() == validity.len() + 1,
        0 <= offsets[0],
        forall|k: int| 0 <= k < validity.len() ==> offsets[k] <= #[trigger] offsets[k + 1],
        offsets[validity.len() as int] <= array_view(values).len(),
    ensures
        array_view(a) == (ColumnView::List {
            validity: validity@,
            offsets: int_offsets(offsets@),
            values: Box::new(array_view(values)),
        }),
{
    let item = arrow_schema::Field::new_list_field(values.inner.data_type().clone(), true);
    let offsets = arrow_buffer::OffsetBuffer::new(offsets.into());
    let nulls = Some(arrow_buffer::NullBuffer::from(validity));
    ArrowArray {
        inner: Arc::new(arrow_array::ListArray::new(Arc::new(item), offsets, values.inner, nulls)),
    }
}

/// `StructArray::new`: a struct array with one nullable field per child
/// array, named in order by `names`, and the given validity. Arrow panics
/// unless there is one name per child array and every child array has as
/// many rows as the validity; without child arrays it takes the number of
/// rows to be zero.
#[verifier::external_body]
pub(crate) fn new_struct_array(names: &Vec<String>, columns: Vec<ArrowArray>, validity: Vec<bool>) -> (a:
    ArrowArray)
    requires
        names.len() == columns.len(),
        columns.len() == 0 ==> validity.len() == 0,
        forall|j: int| 0 <= j < columns.len() ==> array_view(#[trigger] columns[j]).len() == validity.len(),
    ensures
        array_view(a) == (ColumnView::Struct {
            validity: validity@,
            names: name_views(names@),
            columns: array_views(columns@),
        }),
{
    let fields: Vec<arrow_schema::Field> = names.iter().zip(columns.iter()).map(
        |(name, column)| arrow_schema::Field::new(name, column.inner.data_type().clone(), true),
    ).collect();
    let arrays: Vec<arrow_array::ArrayRef> = columns.into_iter().map(|column| column.inner).collect();
    let nulls = Some(arrow_buffer::NullBuffer::from(validity));
    ArrowArray { inner: Arc::new(arrow_array::StructArray::new(fields.into(), arrays, nulls)) }
}

/// `BooleanArray::value`: the value of a row that is not null.
#[verifier::external_body]
pub(crate) fn boolean_value(a: &ArrowArray, i: usize) -> (v: bool)
    requires
        array_view(*a) is Boolean,
        i < array_view(*a).len(),
        !array_view(*a).is_null(i as int),
    ensures
        array_view(*a)->Boolean_0[i as int] == Some(v),
{
    a.inner.as_boolean().value(i)
}

/// `Int8Array::value`: the value of a row that is not null.
#[verifier::external_body]
pub(crate) fn int8_value(a: &ArrowArray, i: usize) -> (v: i8)
    requires
        array_view(*a) is Int8,
        i < array_view(*a).len(),
        !array_view(*a).is_null(i as int),
    ensures
        array_view(*a)->Int8_0[i as int] == Some(v),
{
    a.inner.as_primitive::<arrow_array::types::Int8Type>().value(i)
}

/// `Int16Array::value`: the value of a row that is not null.
#[verifier::external_body]
pub(crate) fn int16_value(a: &ArrowArray, i: usize) -> (v: i16)
    requires
        array_view(*a) is Int16,
        i < array_view(*a).len(),
        !array_view(*a).is_null(i as int),
    ensures
        array_view(*a)->Int16_0[i as int] == Some(v),
{
    a.inner.as_primitive::<arrow_array::types::Int16Type>().value(i)
}

/// `Int32Array::value`: the value of a row that is not null.
#[verifier::external_body]
pub(crate) fn int32_value(a: &ArrowArray, i: usize) -> (v: i32)
    requires
        array_view(*a) is Int32,
        i < array_view(*a).len(),
        !array_view(*a).is_null(i as int),
    ensures
        array_view(*a)->Int32_0[i as int] == Some(v),
{
    a.inner.as_primitive::<arrow_array::types::Int32Type>().value(i)
}

/// `Int64Array::value`: the value of a row that is not null.
#[verifier::external_body]
pub(crate) fn int64_value(a: &ArrowArray, i: usize) -> (v: i64)
    requires
        array_view(*a) is Int64,
        i < array_view(*a).len(),
        !array_view(*a).is_null(i as int),
    ensures
        array_view(*a)->Int64_0[i as int] == Some(v),
{
    a.inner.as_primitive::<arrow_array::types::Int64Type>().value(i)
}

/// `UInt8Array::value`: the value of a row that is not null.
#[verifier::external_body]
pub(crate) fn uint8_value(a: &ArrowArray, i: usize) -> (v: u8)
    requires
        array_view(*a) is UInt8,
        i < array_view(*a).len(),
        !array_view(*a).is_null(i as int),
    ensures
        array_view(*a)->UInt8_0[i as int] == Some(v),
{
    a.inner.as_primitive::<arrow_array::types::UInt8Type>().value(i)
}

/// `UInt16Array::value`: the value of a row that is not null.
#[verifier::external_body]
pub(crate) fn uint16_value(a: &ArrowArray, i: usize) -> (v: u16)
    requires
        array_view(*a) is UInt16,
        i < array_view(*a).len(),
        !array_view(*a).is_null(i as int),
    ensures
        array_view(*a)->UInt16_0[i as int] == Some(v),
{
    a.inner.as_primitive::<arrow_array::types::UInt16Type>().value(i)
}

/// `UInt32Array::value`: the value of a row that is not null.
#[verifier::external_body]
pub(crate) fn uint32_value(a: &ArrowArray, i: usize) -> (v: u32)
    requires
        array_view(*a) is UInt32,
        i < array_view(*a).len(),
        !array_view(*a).is_null(i as int),
    ensures
        array_view(*a)->UInt32_0[i as int] == Some(v),
{
    a.inner.as_primitive::<arrow_array::types::UInt32Type>().value(i)
}

/// `UInt64Array::value`: the value of a row that is not null.
#[verifier::external_body]
pub(crate) fn uint64_value(a: &ArrowArray, i: usize) -> (v: u64)
    requires
        array_view(*a) is UInt64,
        i < array_view(*a).len(),
        !array_view(*a).is_null(i as int),
    ensures
        array_view(*a)->UInt64_0[i as int] == Some(v),
{
    a.inner.as_primitive::<arrow_array::types::UInt64Type>().value(i)
}

/// `Float32Array::value`, then `to_bits`: the bit pattern of a row that is
/// not null.
#[verifier::external_body]
pub(crate) fn float32_value(a: &ArrowArray, i: usize) -> (v: u32)
    requires
        array_view(*a) is Float32,
        i < array_view(*a).len(),
        !array_view(*a).is_null(i as int),
    ensures
        array_view(*a)->Float32_0[i as int] == Some(v),
{
    a.inner.as_primitive::<arrow_array::types::Float32Type>().value(i).to_bits()
}

/// `Float64Array::value`, then `to_bits`: the bit pattern of a row that is
/// not null.
#[verifier::external_body]
pub(crate) fn float64_value(a: &ArrowArray, i: usize) -> (v: u64)
    requires
        array_view(*a) is Float64,
        i < array_view(*a).len(),
        !array_view(*a).is_null(i as int),
    ensures
        array_view(*a)->Float64_0[i as int] == Some(v),
{
    a.inner.as_primitive::<arrow_array::types::Float64Type>().value(i).to_bits()
}

/// `StringArray::value`: the text of a row that is not null.
#[verifier::external_body]
pub(crate) fn utf8_value(a: &ArrowArray, i: usize) -> (v: String)
    requires
        array_view(*a) is Utf8,
        i < array_view(*a).len(),
        !array_view(*a).is_null(i as int),
    ensures
        array_view(*a)->Utf8_0[i as int] == Some(v@),
{
    a.inner.as_string::<i32>().value(i).to_string()
}

/// `LargeStringArray::value`: the text of a row that is not null.
#[verifier::external_body]
pub(crate) fn large_utf8_value(a: &ArrowArray, i: usize) -> (v: String)
    requires
        array_view(*a) is Json,
        i < array_view(*a).len(),
        !array_view(*a).is_null(i as int),
    ensures
        array_view(*a)->Json_0[i as int] == Some(v@),
{
    a.inner.as_string::<i64>().value(i).to_string()
}

/// `BinaryArray::value`: the bytes of a row that is not null.
#[verifier::external_body]
pub(crate) fn binary_value(a: &ArrowArray, i: usize) -> (v: Vec<u8>)
    requires
        array_view(*a) is Binary,
        i < array_view(*a).len(),
        !array_view(*a).is_null(i as int),
    ensures
        array_view(*a)->Binary_0[i as int] == Some(v@),
{
    a.inner.as_binary::<i32>().value(i).to_vec()
}

/// `LargeBinaryArray::value`: the bytes of a row that is not null.
#[verifier::external_body]
pub(crate) fn large_binary_value(a: &ArrowArray, i: usize) -> (v: Vec<u8>)
    requires
        array_view(*a) is Decimal,
        i < array_view(*a).len(),
        !array_view(*a).is_null(i as int),
    ensures
        array_view(*a)->Decimal_0[i as int] == Some(v@),
{
    a.inner.as_binary::<i64>().value(i).to_vec()
}

/// `ListArray::value_offsets`: the number of offsets.
#[verifier::external_body]
pub(crate) fn list_offset_count(a: &ArrowArray) -> (n: usize)
    requires
        array_view(*a) is List,
    ensures
        n == array_view(*a)->List_offsets.len(),
{
    a.inner.as_list::<i32>().value_offsets().len()
}

/// `ListArray::value_offsets`: the offset at position `k`.
#[verifier::external_body]
pub(crate) fn list_offset(a: &ArrowArray, k: usize) -> (offset: i32)
    requires
        array_view(*a) is List,
        k < array_view(*a)->List_offsets.len(),
    ensures
        offset == array_view(*a)->List_offsets[k as int],
{
    a.inner.as_list::<i32>().value_offsets()[k]
}

/// `ListArray::values`: the flattened child array of a list array.
#[verifier::external_body]
pub(crate) fn list_values(a: &ArrowArray) -> (values: ArrowArray)
    requires
        array_view(*a) is List,
    ensures
        array_view(values) == *array_view(*a)->List_values,
{
    ArrowArray { inner: a.inner.as_list::<i32>().values().clone() }
}

/// `StructArray::column`: the child array of field `j`.
#[verifier::external_body]
pub(crate) fn struct_column(a: &ArrowArray, j: usize) -> (column: ArrowArray)
    requires
        array_view(*a) is Struct,
        j < array_view(*a)->Struct_columns.len(),
    ensures
        array_view(column) == array_view(*a)->Struct_columns[j as int],
{
    ArrowArray { inner: a.inner.as_struct().column(j).clone() }
}

/// `String::from_utf8`: the text that the bytes encode, if they are valid
/// UTF-8, and nothing otherwise.
#[verifier::external_body]
pub(crate) fn text_from_utf8(bytes: Vec<u8>) -> (r: Option<String>)
    ensures
        match r {
            Some(s) => vstd::utf8::valid_utf8(bytes@) && encode_utf8(s@) == bytes@,
            None => !vstd::utf8::valid_utf8(bytes@),
        },
{
    String::from_utf8(bytes).ok()
}

} // verus!
