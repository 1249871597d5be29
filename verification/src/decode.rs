//! The decoder: from one row of a column array to a dynamic value.

use vstd::pervasive::unreached;
use vstd::prelude::*;
use vstd::utf8::{decode_utf8, encode_utf8_decode_utf8, valid_utf8};
use crate::arrow::{
    array_is_null, array_len, array_view, binary_value, boolean_value, float32_value, float64_value,
    int16_value, int32_value, int64_value, int8_value, large_binary_value, large_utf8_value,
    list_offset, list_offset_count, list_values, struct_column, text_from_utf8, uint16_value, uint32_value,
    uint64_value, uint8_value, utf8_value, ArrowArray,
};
use crate::column::ColumnView;
use crate::error::{ConvertError, ConvertErrorView};
use crate::search::{first_where, lemma_first_where_absent, lemma_first_where_found};
use crate::types::{DataType, Field, TypeView};
use crate::value::{Value, ValueView};

verus! {

/// The results that are errors.
pub open spec fn broken() -> spec_fn(Result<ValueView, ConvertErrorView>) -> bool {
    |outcome: Result<ValueView, ConvertErrorView>| outcome is Err
}

/// The dynamic value of row `i` of a column, or the error that stands in
/// the way.
///
/// A null row is the null value, whatever the type. A leaf row is its raw
/// value, wrapped; the text of a decimal row must be valid UTF-8. A list row
/// is the sequence of the child positions between its two offsets, decoded
/// in order; a struct row has one field per child column, decoded at the
/// same row and named as the column is. The first element or field that
/// fails decides. A list row whose offsets are missing, out of order or
/// beyond the child column, and a field whose column is too short, fail
/// with a length inconsistency.
pub open spec fn decode_spec(column: ColumnView, i: int) -> Result<ValueView, ConvertErrorView>
    decreases column, 1nat,
{
    if column.is_null(i) {
        Ok(ValueView::Null)
    } else {
        match column {
            ColumnView::Null(_) => Ok(ValueView::Null),
            ColumnView::Boolean(rows) => Ok(ValueView::Bool(rows[i]->Some_0)),
            ColumnView::Int8(rows) => Ok(ValueView::Int(rows[i]->Some_0 as int)),
            ColumnView::Int16(rows) => Ok(ValueView::Int(rows[i]->Some_0 as int)),
            ColumnView::Int32(rows) => Ok(ValueView::Int(rows[i]->Some_0 as int)),
            ColumnView::Int64(rows) => Ok(ValueView::Int(rows[i]->Some_0 as int)),
            ColumnView::UInt8(rows) => Ok(ValueView::Int(rows[i]->Some_0 as int)),
            ColumnView::UInt16(rows) => Ok(ValueView::Int(rows[i]->Some_0 as int)),
            ColumnView::UInt32(rows) => Ok(ValueView::Int(rows[i]->Some_0 as int)),
            ColumnView::UInt64(rows) => Ok(ValueView::Int(rows[i]->Some_0 as int)),
            ColumnView::Float32(rows) => Ok(ValueView::Float32(rows[i]->Some_0)),
            ColumnView::Float64(rows) => Ok(ValueView::Float64(rows[i]->Some_0)),
            ColumnView::Utf8(rows) => Ok(ValueView::Str(rows[i]->Some_0)),
            ColumnView::Binary(rows) => Ok(ValueView::Bytes(rows[i]->Some_0)),
            ColumnView::Json(rows) => Ok(ValueView::Json(rows[i]->Some_0)),
            ColumnView::Decimal(rows) => {
                let bytes = rows[i]->Some_0;
                if valid_utf8(bytes) {
                    Ok(ValueView::Decimal(decode_utf8(bytes)))
                } else {
                    Err(ConvertErrorView::MalformedText { row: i as nat, data_type: TypeView::Decimal })
                }
            },
            ColumnView::List { offsets, values, .. } => {
                if i + 1 < offsets.len() && 0 <= offsets[i] <= offsets[i + 1] <= values.len() {
                    let outcomes = element_outcomes(*values, offsets[i], offsets[i + 1]);
                    let failing = first_where(outcomes, broken(), outcomes.len() as int);
                    if failing < outcomes.len() {
                        Err(outcomes[failing]->Err_0)
                    } else {
                        Ok(ValueView::List(Seq::new(outcomes.len(), |k: int| outcomes[k]->Ok_0)))
                    }
                } else {
                    Err(ConvertErrorView::LengthInconsistency { data_type: column.data_type() })
                }
            },
            ColumnView::Struct { names, columns, .. } => {
                let outcomes = field_values(columns, i);
                let failing = first_where(outcomes, broken(), outcomes.len() as int);
                if failing < outcomes.len() {
                    Err(outcomes[failing]->Err_0)
                } else {
                    Ok(
                        ValueView::Struct(
                            Seq::new(outcomes.len(), |j: int| (names[j], outcomes[j]->Ok_0)),
                        ),
                    )
                }
            },
        }
    }
}

/// What decoding each position from `start` up to `end` of a child column
/// comes to, in order.
pub open spec fn element_outcomes(values: ColumnView, start: int, end: int) -> Seq<
    Result<ValueView, ConvertErrorView>,
>
    decreases values, 2nat,
{
    Seq::new(
        if start <= end {
            (end - start) as nat
        } else {
            0
        },
        |k: int| decode_spec(values, start + k),
    )
}

/// What decoding row `i` of each child column of a struct column comes to,
/// in declared order: the length inconsistency of a column that has no row
/// `i`, or else what decoding that row of it comes to.
pub open spec fn field_values(columns: Seq<ColumnView>, i: int) -> Seq<
    Result<ValueView, ConvertErrorView>,
>
    decreases columns, 0nat,
{
    Seq::new(
        columns.len(),
        |j: int|
            if 0 <= j < columns.len() {
                if i < columns[j].len() {
                    decode_spec(columns[j], i)
                } else {
                    Err(ConvertErrorView::LengthInconsistency { data_type: columns[j].data_type() })
                }
            } else {
                Ok(ValueView::Null)
            },
    )
}

/// What a caller of the decoder owes: the array has the given type, and
/// has a row `i`.
pub open spec fn decodable(data_type: TypeView, column: ColumnView, i: int) -> bool {
    &&& column.data_type() == data_type
    &&& 0 <= i < column.len()
}

/// Decodes a list row: the child positions of its span, in order.
fn decode_list(data_type: &DataType, array: &ArrowArray, i: usize) -> (r: Result<Value, ConvertError>)
    requires
        data_type is List,
        decodable(data_type@, array_view(*array), i as int),
        !array_view(*array).is_null(i as int),
    ensures
        match r {
            Ok(v) => decode_spec(array_view(*array), i as int) == Ok::<ValueView, ConvertErrorView>(v@),
            Err(e) => decode_spec(array_view(*array), i as int) == Err::<ValueView, ConvertErrorView>(
                e@,
            ),
        },
    decreases data_type, 0nat,
{
    let ghost column = array_view(*array);
    let element: &DataType = match data_type {
        DataType::List(element) => element,
        _ => unreached(),
    };
    let count = list_offset_count(array);
    if count < 2 || i > count - 2 {
        return Err(ConvertError::LengthInconsistency { data_type: data_type.duplicate() });
    }
    let first = list_offset(array, i);
    let last = list_offset(array, i + 1);
    let child = list_values(array);
    if first < 0 || last < first || last as usize > array_len(&child) {
        return Err(ConvertError::LengthInconsistency { data_type: data_type.duplicate() });
    }
    let start = first as usize;
    let end = last as usize;
    let ghost outcomes = element_outcomes(array_view(child), start as int, end as int);
    let mut items: Vec<Value> = Vec::with_capacity(end - start);
    let mut position: usize = start;
    while position < end
        invariant
            start <= position <= end,
            end <= array_view(child).len(),
            array_view(child).data_type() == element@,
            data_type is List,
            *element == *data_type->List_0,
            column == array_view(*array),
            column is List,
            !column.is_null(i as int),
            i + 1 < column->List_offsets.len(),
            start == column->List_offsets[i as int],
            end == column->List_offsets[i + 1],
            array_view(child) == *column->List_values,
            outcomes == element_outcomes(array_view(child), start as int, end as int),
            items.len() == position - start,
            forall|k: int|
                0 <= k < position - start ==> outcomes[k] == Ok::<ValueView, ConvertErrorView>(
                    (#[trigger] items[k])@,
                ),
        decreases end - position,
    {
        assert(decreases_to!(data_type => data_type->List_0));
        match get_pyobject(element, &child, position) {
            Ok(item) => {
                items.push(item);
            },
            Err(e) => {
                proof {
                    let k = position - start;
                    assert(outcomes[k] == Err::<ValueView, ConvertErrorView>(e@));
                    assert(broken()(outcomes[k]));
                    assert forall|q: int| 0 <= q < k implies !broken()(#[trigger] outcomes[q]) by {
                        assert(outcomes[q] == Ok::<ValueView, ConvertErrorView>(items[q]@));
                    }
                    lemma_first_where_found(outcomes, broken(), outcomes.len() as int, k);
                }
                return Err(e);
            },
        }
        position += 1;
    }
    proof {
        assert forall|q: int| 0 <= q < outcomes.len() implies !broken()(#[trigger] outcomes[q]) by {
            assert(outcomes[q] == Ok::<ValueView, ConvertErrorView>(items[q]@));
        }
        lemma_first_where_absent(outcomes, broken(), outcomes.len() as int);
    }
    let value = Value::List(items);
    proof {
        assert(value@->List_0 =~= Seq::new(outcomes.len(), |k: int| outcomes[k]->Ok_0)) by {
            assert forall|k: int| 0 <= k < outcomes.len() implies value@->List_0[k] == outcomes[k]->Ok_0 by {
                assert(outcomes[k] == Ok::<ValueView, ConvertErrorView>(items[k]@));
            }
        }
    }
    Ok(value)
}

/// Decodes a struct row: one field per child column, read at the same row.
fn decode_struct(data_type: &DataType, array: &ArrowArray, i: usize) -> (r: Result<
    Value,
    ConvertError,
>)
    requires
        data_type is Struct,
        decodable(data_type@, array_view(*array), i as int),
        !array_view(*array).is_null(i as int),
    ensures
        match r {
            Ok(v) => decode_spec(array_view(*array), i as int) == Ok::<ValueView, ConvertErrorView>(v@),
            Err(e) => decode_spec(array_view(*array), i as int) == Err::<ValueView, ConvertErrorView>(
                e@,
            ),
        },
    decreases data_type, 0nat,
{
    let ghost column = array_view(*array);
    let ghost outcomes = field_values(column->Struct_columns, i as int);
    let fields: &Vec<Field> = match data_type {
        DataType::Struct(fields) => fields,
        _ => unreached(),
    };
    proof {
        assert(column.data_type()->Struct_0.len() == fields.len());
    }
    let mut entries: Vec<(String, Value)> = Vec::with_capacity(fields.len());
    let mut j: usize = 0;
    while j < fields.len()
        invariant
            j <= fields.len(),
            *data_type == DataType::Struct(*fields),
            column == array_view(*array),
            column is Struct,
            !column.is_null(i as int),
            decodable(data_type@, column, i as int),
            column->Struct_columns.len() == fields.len(),
            outcomes == field_values(column->Struct_columns, i as int),
            entries.len() == j,
            forall|q: int| 0 <= q < j ==> (#[trigger] entries[q]).0@ == column->Struct_names[q],
            forall|q: int|
                0 <= q < j ==> outcomes[q] == Ok::<ValueView, ConvertErrorView>(
                    (#[trigger] entries[q]).1@,
                ),
        decreases fields.len() - j,
    {
        let field = &fields[j];
        proof {
            assert(data_type->Struct_0 == *fields);
            assert(decreases_to!(*fields => fields[j as int]));
            assert(data_type@->Struct_0[j as int] == fields[j as int]@);
            assert(column.data_type()->Struct_0[j as int] == fields[j as int]@);
        }
        let child = struct_column(array, j);
        let decoded = if i < array_len(&child) {
            get_pyobject(&field.data_type, &child, i)
        } else {
            Err(ConvertError::LengthInconsistency { data_type: field.data_type.duplicate() })
        };
        match decoded {
            Ok(value) => {
                entries.push((field.name.clone(), value));
            },
            Err(e) => {
                proof {
                    assert(outcomes[j as int] == Err::<ValueView, ConvertErrorView>(e@));
                    assert(broken()(outcomes[j as int]));
                    assert forall|q: int| 0 <= q < j implies !broken()(#[trigger] outcomes[q]) by {
                        assert(outcomes[q] == Ok::<ValueView, ConvertErrorView>(entries[q].1@));
                    }
                    lemma_first_where_found(outcomes, broken(), outcomes.len() as int, j as int);
                }
                return Err(e);
            },
        }
        j += 1;
    }
    proof {
        assert forall|q: int| 0 <= q < outcomes.len() implies !broken()(#[trigger] outcomes[q]) by {
            assert(outcomes[q] == Ok::<ValueView, ConvertErrorView>(entries[q].1@));
        }
        lemma_first_where_absent(outcomes, broken(), outcomes.len() as int);
    }
    let value = Value::Struct(entries);
    proof {
        let names = column->Struct_names;
        assert(value@->Struct_0 =~= Seq::new(outcomes.len(), |q: int| (names[q], outcomes[q]->Ok_0))) by {
            assert forall|q: int| 0 <= q < outcomes.len() implies value@->Struct_0[q] == (
                names[q],
                outcomes[q]->Ok_0,
            ) by {
                assert(outcomes[q] == Ok::<ValueView, ConvertErrorView>(entries[q].1@));
                assert(entries[q].0@ == names[q]);
            }
        }
    }
    Ok(value)
}

/// Get the element at row `i` of a column array as a dynamic value.
///
/// `data_type` is the logical type of the array. The result is the value
/// that [`decode_spec`] describes, and the error is the one it describes; a
/// row that the array marks null is the null value, whatever the type.
///
/// A JSON row and a decimal row come back by their text, as
/// [`Value::Json`] and [`Value::Decimal`]: what the text means is up to the
/// host that takes the value. Of a decimal row only this is checked, that
/// its bytes are text at all.
pub fn get_pyobject(data_type: &DataType, array: &ArrowArray, i: usize) -> (r: Result<
    Value,
    ConvertError,
>)
    requires
        decodable(data_type@, array_view(*array), i as int),
    ensures
        match r {
            Ok(v) => decode_spec(array_view(*array), i as int) == Ok::<ValueView, ConvertErrorView>(v@),
            Err(e) => decode_spec(array_view(*array), i as int) == Err::<ValueView, ConvertErrorView>(
                e@,
            ),
        },
        array_view(*array).is_null(i as int) ==> r == Ok::<Value, ConvertError>(Value::Null),
    decreases data_type, 1nat,
{
    if matches!(data_type, DataType::Null) || array_is_null(array, i) {
        return Ok(Value::Null);
    }
    match data_type {
        DataType::Null => unreached(),
        DataType::Boolean => Ok(Value::Bool(boolean_value(array, i))),
        DataType::Int8 => Ok(Value::Int(int8_value(array, i) as i128)),
        DataType::Int16 => Ok(Value::Int(int16_value(array, i) as i128)),
        DataType::Int32 => Ok(Value::Int(int32_value(array, i) as i128)),
        DataType::Int64 => Ok(Value::Int(int64_value(array, i) as i128)),
        DataType::UInt8 => Ok(Value::Int(uint8_value(array, i) as i128)),
        DataType::UInt16 => Ok(Value::Int(uint16_value(array, i) as i128)),
        DataType::UInt32 => Ok(Value::Int(uint32_value(array, i) as i128)),
        DataType::UInt64 => Ok(Value::Int(uint64_value(array, i) as i128)),
        DataType::Float32 => Ok(Value::Float32(float32_value(array, i))),
        DataType::Float64 => Ok(Value::Float64(float64_value(array, i))),
        DataType::Utf8 => Ok(Value::Str(utf8_value(array, i))),
        DataType::Binary => Ok(Value::Bytes(binary_value(array, i))),
        DataType::Json => Ok(Value::Json(large_utf8_value(array, i))),
        DataType::Decimal => {
            let bytes = large_binary_value(array, i);
            match text_from_utf8(bytes) {
                Some(text) => {
                    proof {
                        encode_utf8_decode_utf8(text@);
                    }
                    Ok(Value::Decimal(text))
                },
                None => Err(ConvertError::MalformedText { row: i, data_type: DataType::Decimal }),
            }
        },
        DataType::List(_) => decode_list(data_type, array, i),
        DataType::Struct(_) => decode_struct(data_type, array, i),
    }
}

} // verus!
