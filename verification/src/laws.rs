//! What holds of the decoder and the encoder together.

use vstd::prelude::*;
use vstd::utf8::{encode_utf8_decode_utf8, encode_utf8_valid_utf8};
use crate::column::{lemma_offsets_ordered, ColumnView};
use crate::decode::{broken, decode_spec, element_outcomes, field_values};
use crate::encode::{
    accepts, encode_spec, failed, field_outcomes, flattened, items_of, lacks, lemma_all_accepted,
    lemma_encoded_column, lemma_flattened_grows, offsets_of, projected, validity_of,
};
use crate::error::ConvertErrorView;
use crate::search::{
    first_where, lemma_first_where, lemma_first_where_absent, lemma_first_where_found,
};
use crate::types::{FieldView, TypeView};
use crate::value::{called, ValueView};

verus! {

/// Whether `v` is a value of the scalar type `t` itself: `t` has no child
/// columns and is not the null type, and `v` is not null and is taken by
/// `t` as it is.
pub open spec fn native(t: TypeView, v: ValueView) -> bool {
    &&& !(t is List)
    &&& !(t is Struct)
    &&& !(t is Null)
    &&& !(v is Null)
    &&& accepts(t, v)
}

/// Round trip: a native value of a scalar type, encoded as a column of one
/// row and decoded from row zero, comes back as it was. Encoding it fails
/// only where the value alone exceeds what the column's offsets can address.
pub proof fn law_round_trip(t: TypeView, v: ValueView)
    requires
        native(t, v),
    ensures
        match encode_spec(t, seq![v]) {
            Ok(column) => decode_spec(column, 0) == Ok::<ValueView, ConvertErrorView>(v),
            Err(e) => e == (ConvertErrorView::LengthInconsistency { data_type: t }),
        },
{
    let values = seq![v];
    assert(values[0] == v);
    assert forall|i: int| 0 <= i < values.len() implies accepts(t, #[trigger] values[i]) by {}
    lemma_all_accepted(t, values);
    if t is Decimal {
        encode_utf8_valid_utf8(v->Decimal_0);
        encode_utf8_decode_utf8(v->Decimal_0);
    }
}

/// Null preservation, decoding: a row that the column marks null decodes to
/// the null value, whatever the type of the column.
pub proof fn law_null_decodes_to_null(column: ColumnView, i: int)
    requires
        column.is_null(i),
    ensures
        decode_spec(column, i) == Ok::<ValueView, ConvertErrorView>(ValueView::Null),
{
}

/// Null preservation, encoding: wherever a value is null, the encoded
/// column has a null row, whatever the type of the column.
pub proof fn law_null_encodes_to_null(t: TypeView, values: Seq<ValueView>, i: int)
    requires
        0 <= i < values.len(),
        values[i] is Null,
    ensures
        match encode_spec(t, values) {
            Ok(column) => column.is_null(i),
            Err(_) => true,
        },
{
}

/// List offset invariant: an encoded list column of `N` rows has `N + 1`
/// offsets, which start at zero, never decrease, and end at the length of
/// the child column. A null row spans nothing.
pub proof fn law_list_offsets(element: TypeView, values: Seq<ValueView>)
    ensures
        match encode_spec(TypeView::List(Box::new(element)), values) {
            Ok(column) => {
                &&& column is List
                &&& column->List_offsets.len() == values.len() + 1
                &&& column->List_offsets[0] == 0
                &&& forall|k: int|
                    0 <= k < values.len() ==> column->List_offsets[k] <= #[trigger] column->List_offsets[k
                        + 1]
                &&& forall|k: int|
                    0 <= k < values.len() && values[k] is Null ==> column->List_offsets[k]
                        == #[trigger] column->List_offsets[k + 1]
                &&& column->List_offsets[values.len() as int] == column->List_values.len()
            },
            Err(_) => true,
        },
{
    let t = TypeView::List(Box::new(element));
    let n = values.len();
    if encode_spec(t, values) is Ok {
        lemma_encoded_column(t, values);
        lemma_encoded_column(element, flattened(values, n as int));
        assert(flattened(values, 0).len() == 0);
        assert forall|k: int| 0 <= k < n && values[k] is Null implies offsets_of(values)[k]
            == #[trigger] offsets_of(values)[k + 1] by {
            assert(flattened(values, k + 1) =~= flattened(values, k));
        }
    }
}

/// Struct field independence, in the column: whether a row of a struct
/// column is null is up to its validity alone, and whether that row of a
/// field is null is up to the field's column alone. So any validity of the
/// right length goes with the same field columns, and any column of the
/// right length can stand for a field under the same validity.
pub proof fn law_struct_field_independence(
    column: ColumnView,
    validity: Seq<bool>,
    j: int,
    field: ColumnView,
)
    requires
        column is Struct,
        column.wf(),
        validity.len() == column.len(),
        0 <= j < column->Struct_columns.len(),
        field.wf(),
        field.len() == column.len(),
    ensures
        ({
            let revalidated = ColumnView::Struct {
                validity,
                names: column->Struct_names,
                columns: column->Struct_columns,
            };
            &&& revalidated.wf()
            &&& forall|i: int| 0 <= i < column.len() ==> revalidated.is_null(i) == !validity[i]
        }),
        ({
            let replaced = ColumnView::Struct {
                validity: column->Struct_validity,
                names: column->Struct_names,
                columns: column->Struct_columns.update(j, field),
            };
            &&& replaced.wf()
            &&& forall|i: int| 0 <= i < column.len() ==> replaced.is_null(i) == column.is_null(i)
        }),
{
    let columns = column->Struct_columns;
    let updated = columns.update(j, field);
    assert forall|q: int| 0 <= q < updated.len() implies (#[trigger] updated[q]).len()
        == column.len() && updated[q].wf() by {
        if q != j {
            assert(updated[q] == columns[q]);
        }
    }
}

/// Struct field independence, in the decoder: a row of a struct column
/// that is not null decodes to a struct value even where a field is null at
/// that row, and that field of the value is then the null value.
pub proof fn law_null_field_of_valid_row(column: ColumnView, i: int, j: int)
    requires
        column is Struct,
        column.wf(),
        0 <= i < column.len(),
        !column.is_null(i),
        0 <= j < column->Struct_columns.len(),
        column->Struct_columns[j].is_null(i),
    ensures
        match decode_spec(column, i) {
            Ok(v) => {
                &&& v is Struct
                &&& v->Struct_0.len() == column->Struct_columns.len()
                &&& v->Struct_0[j] == (column->Struct_names[j], ValueView::Null)
            },
            Err(_) => true,
        },
{
    let outcomes = field_values(column->Struct_columns, i);
    assert(outcomes[j] == decode_spec(column->Struct_columns[j], i));
    lemma_first_where(outcomes, broken(), outcomes.len() as int);
}

/// The decoder fails on valid input only for malformed text: on a column
/// that meets the invariant of column arrays, every row decodes unless the
/// text of a decimal in it is malformed.
pub proof fn law_valid_column_decodes(column: ColumnView, i: int)
    requires
        column.wf(),
        0 <= i < column.len(),
    ensures
        match decode_spec(column, i) {
            Ok(_) => true,
            Err(e) => e is MalformedText,
        },
    decreases column,
{
    if !column.is_null(i) {
        match column {
            ColumnView::List { offsets, values, .. } => {
                lemma_offsets_ordered(column, i, i + 1);
                let outcomes = element_outcomes(*values, offsets[i], offsets[i + 1]);
                lemma_first_where(outcomes, broken(), outcomes.len() as int);
                let failing = first_where(outcomes, broken(), outcomes.len() as int);
                if failing < outcomes.len() {
                    law_valid_column_decodes(*values, offsets[i] + failing);
                }
            },
            ColumnView::Struct { columns, .. } => {
                let outcomes = field_values(columns, i);
                lemma_first_where(outcomes, broken(), outcomes.len() as int);
                let failing = first_where(outcomes, broken(), outcomes.len() as int);
                if failing < outcomes.len() {
                    assert(columns[failing].len() == column.len());
                    law_valid_column_decodes(columns[failing], i);
                }
            },
            _ => {},
        }
    }
}

/// No two fields have the same name.
pub open spec fn distinct_names(fields: Seq<FieldView>) -> bool {
    forall|a: int, b: int|
        0 <= a < b < fields.len() ==> (#[trigger] fields[a]).name != (#[trigger] fields[b]).name
}

/// Whether `v` is a value of type `t` at every depth: null, or a native
/// value of a scalar type, or a list of such values of the element type, or
/// a struct value that has exactly the fields of a struct type, in their
/// order, each holding such a value, where no two fields share a name.
pub open spec fn conforms(t: TypeView, v: ValueView) -> bool
    decreases t,
{
    v is Null || match t {
        TypeView::Null => false,
        TypeView::List(element) => v is List && forall|k: int|
            0 <= k < v->List_0.len() ==> conforms(*element, #[trigger] v->List_0[k]),
        TypeView::Struct(fields) => {
            &&& v is Struct
            &&& v->Struct_0.len() == fields.len()
            &&& distinct_names(fields)
            &&& forall|j: int|
                0 <= j < fields.len() ==> (#[trigger] v->Struct_0[j]).0 == fields[j].name && conforms(
                    fields[j].data_type,
                    v->Struct_0[j].1,
                )
        },
        _ => accepts(t, v),
    }
}

/// The elements of row `i` lie in the flattened elements where the offsets
/// of the row say.
pub proof fn lemma_flattened_span(values: Seq<ValueView>, n: int, i: int)
    requires
        0 <= i < n,
    ensures
        flattened(values, i).len() + items_of(values[i]).len() == flattened(values, i + 1).len(),
        flattened(values, i + 1).len() <= flattened(values, n).len(),
        forall|k: int|
            0 <= k < items_of(values[i]).len() ==> flattened(values, n)[flattened(values, i).len() + k]
                == #[trigger] items_of(values[i])[k],
    decreases n - i,
{
    if i + 1 < n {
        lemma_flattened_span(values, n - 1, i);
    }
}

/// If the elements of every list among the first `n` values conform to
/// `element`, so does each of the flattened elements.
pub proof fn lemma_flattened_conforms(element: TypeView, values: Seq<ValueView>, n: int)
    requires
        0 <= n <= values.len(),
        forall|i: int| 0 <= i < n ==> conforms(TypeView::List(Box::new(element)), #[trigger] values[i]),
    ensures
        forall|m: int|
            0 <= m < flattened(values, n).len() ==> conforms(element, #[trigger] flattened(values, n)[m]),
    decreases n,
{
    if n > 0 {
        lemma_flattened_conforms(element, values, n - 1);
        let before = flattened(values, n - 1);
        let items = items_of(values[n - 1]);
        assert(conforms(TypeView::List(Box::new(element)), values[n - 1]));
        assert forall|m: int| 0 <= m < flattened(values, n).len() implies conforms(
            element,
            #[trigger] flattened(values, n)[m],
        ) by {
            if m >= before.len() {
                let k = m - before.len();
                assert(flattened(values, n)[m] == items[k]);
                assert(values[n - 1]->List_0[k] == items[k]);
            }
        }
    }
}

/// A struct value that conforms to a struct type has each field of the
/// type, holding what stands at the position of the field.
pub proof fn lemma_field_of_conforming(fields: Seq<FieldView>, v: ValueView, j: int)
    requires
        conforms(TypeView::Struct(fields), v),
        !(v is Null),
        0 <= j < fields.len(),
    ensures
        v.field(fields[j].name) == Some(v->Struct_0[j].1),
{
    let entries = v->Struct_0;
    let name = fields[j].name;
    let named = called(name);
    assert(named(entries[j]));
    assert forall|q: int| 0 <= q < j implies !named(#[trigger] entries[q]) by {
        assert(entries[q].0 == fields[q].name);
    }
    lemma_first_where_found(entries, named, entries.len() as int, j);
}

/// Round trip of a list column: if the flattened elements come back from
/// the child column as they were, every row comes back as it was.
proof fn lemma_list_round_trip(element: TypeView, values: Seq<ValueView>, child: ColumnView, i: int)
    requires
        0 <= i < values.len(),
        forall|r: int|
            0 <= r < values.len() ==> conforms(TypeView::List(Box::new(element)), #[trigger] values[r]),
        child.len() == flattened(values, values.len() as int).len(),
        forall|m: int|
            0 <= m < child.len() ==> decode_spec(child, m) == Ok::<ValueView, ConvertErrorView>(
                #[trigger] flattened(values, values.len() as int)[m],
            ),
    ensures
        decode_spec(
            ColumnView::List {
                validity: validity_of(values),
                offsets: offsets_of(values),
                values: Box::new(child),
            },
            i,
        ) == Ok::<ValueView, ConvertErrorView>(values[i]),
{
    let n = values.len() as int;
    let column = ColumnView::List {
        validity: validity_of(values),
        offsets: offsets_of(values),
        values: Box::new(child),
    };
    let flat = flattened(values, n);
    assert(conforms(TypeView::List(Box::new(element)), values[i]));
    if !(values[i] is Null) {
        let items = values[i]->List_0;
        assert(items_of(values[i]) == items);
        lemma_flattened_span(values, n, i);
        lemma_flattened_grows(values, 0, i);
        let start = offsets_of(values)[i];
        let end = offsets_of(values)[i + 1];
        assert(start == flattened(values, i).len());
        assert(end == start + items.len());
        let outcomes = element_outcomes(child, start, end);
        assert forall|k: int| 0 <= k < outcomes.len() implies #[trigger] outcomes[k] == Ok::<
            ValueView,
            ConvertErrorView,
        >(items[k]) by {
            assert(flat[start + k] == items_of(values[i])[k]);
            assert(decode_spec(child, start + k) == Ok::<ValueView, ConvertErrorView>(flat[start + k]));
        }
        assert forall|k: int| 0 <= k < outcomes.len() implies !broken()(#[trigger] outcomes[k]) by {}
        lemma_first_where_absent(outcomes, broken(), outcomes.len() as int);
        assert(Seq::new(outcomes.len(), |k: int| outcomes[k]->Ok_0) =~= items);
    }
}

/// Round trip of a struct column: if the values of every field come back
/// from the column of the field as they were, every row comes back as it
/// was.
proof fn lemma_struct_round_trip(
    fields: Seq<FieldView>,
    values: Seq<ValueView>,
    columns: Seq<ColumnView>,
    r: int,
)
    requires
        0 <= r < values.len(),
        forall|i: int| 0 <= i < values.len() ==> conforms(TypeView::Struct(fields), #[trigger] values[i]),
        columns.len() == fields.len(),
        forall|j: int| 0 <= j < fields.len() ==> (#[trigger] columns[j]).len() == values.len(),
        forall|j: int|
            0 <= j < fields.len() ==> decode_spec(#[trigger] columns[j], r) == Ok::<
                ValueView,
                ConvertErrorView,
            >(projected(values, fields[j].name)[r]),
    ensures
        decode_spec(
            ColumnView::Struct {
                validity: validity_of(values),
                names: Seq::new(fields.len(), |j: int| fields[j].name),
                columns,
            },
            r,
        ) == Ok::<ValueView, ConvertErrorView>(values[r]),
{
    let v = values[r];
    assert(conforms(TypeView::Struct(fields), v));
    if !(v is Null) {
        let entries = v->Struct_0;
        let outcomes = field_values(columns, r);
        assert forall|j: int| 0 <= j < outcomes.len() implies #[trigger] outcomes[j] == Ok::<
            ValueView,
            ConvertErrorView,
        >(entries[j].1) by {
            lemma_field_of_conforming(fields, v, j);
            assert(columns[j].len() == values.len());
            assert(projected(values, fields[j].name)[r] == entries[j].1);
        }
        assert forall|j: int| 0 <= j < outcomes.len() implies !broken()(#[trigger] outcomes[j]) by {}
        lemma_first_where_absent(outcomes, broken(), outcomes.len() as int);
        let names = Seq::new(fields.len(), |j: int| fields[j].name);
        let decoded = Seq::new(outcomes.len(), |j: int| (names[j], outcomes[j]->Ok_0));
        assert(decoded =~= entries) by {
            assert forall|j: int| 0 <= j < entries.len() implies decoded[j] == entries[j] by {
                assert(entries[j].0 == fields[j].name);
                assert(outcomes[j] == Ok::<ValueView, ConvertErrorView>(entries[j].1));
            }
        }
    }
}

/// Round trip at every depth: values that conform to a type, encoded as a
/// column of that type, come back from every row as they were. Encoding
/// them fails only where a column exceeds what its offsets can address, or
/// where a struct type without fields is given rows.
pub proof fn law_round_trip_nested(t: TypeView, values: Seq<ValueView>)
    requires
        forall|i: int| 0 <= i < values.len() ==> conforms(t, #[trigger] values[i]),
    ensures
        match encode_spec(t, values) {
            Ok(column) => forall|i: int|
                0 <= i < values.len() ==> decode_spec(column, i) == Ok::<ValueView, ConvertErrorView>(
                    #[trigger] values[i],
                ),
            Err(e) => e is LengthInconsistency,
        },
    decreases t,
{
    let n = values.len();
    assert forall|i: int| 0 <= i < n implies accepts(t, #[trigger] values[i]) by {
        assert(conforms(t, values[i]));
    }
    lemma_all_accepted(t, values);
    match t {
        TypeView::List(element) => {
            let flat = flattened(values, n as int);
            if flat.len() <= i32::MAX {
                lemma_flattened_conforms(*element, values, n as int);
                law_round_trip_nested(*element, flat);
                lemma_encoded_column(*element, flat);
                if encode_spec(*element, flat) is Ok {
                    let child = encode_spec(*element, flat)->Ok_0;
                    assert forall|i: int| 0 <= i < n implies decode_spec(
                        encode_spec(t, values)->Ok_0,
                        i,
                    ) == Ok::<ValueView, ConvertErrorView>(#[trigger] values[i]) by {
                        lemma_list_round_trip(*element, values, child, i);
                    }
                }
            }
        },
        TypeView::Struct(fields) => {
            let outcomes = field_outcomes(fields, values);
            assert forall|j: int| 0 <= j < fields.len() implies match #[trigger] outcomes[j] {
                Ok(column) => column.len() == n && forall|r: int|
                    0 <= r < n ==> decode_spec(column, r) == Ok::<ValueView, ConvertErrorView>(
                        #[trigger] projected(values, fields[j].name)[r],
                    ),
                Err(e) => e is LengthInconsistency,
            } by {
                let name = fields[j].name;
                let held = projected(values, name);
                assert forall|r: int| 0 <= r < n implies !lacks(name)(#[trigger] values[r]) && conforms(
                    fields[j].data_type,
                    held[r],
                ) by {
                    assert(conforms(t, values[r]));
                    if !(values[r] is Null) {
                        lemma_field_of_conforming(fields, values[r], j);
                        assert(values[r]->Struct_0[j].0 == fields[j].name);
                    }
                }
                lemma_first_where_absent(values, lacks(name), n as int);
                law_round_trip_nested(fields[j].data_type, held);
                lemma_encoded_column(fields[j].data_type, held);
            }
            lemma_first_where(outcomes, failed(), fields.len() as int);
            if encode_spec(t, values) is Ok {
                let column = encode_spec(t, values)->Ok_0;
                let columns = column->Struct_columns;
                assert forall|r: int| 0 <= r < n implies decode_spec(column, r) == Ok::<
                    ValueView,
                    ConvertErrorView,
                >(#[trigger] values[r]) by {
                    assert forall|j: int| 0 <= j < fields.len() implies (#[trigger] columns[j]).len()
                        == n && decode_spec(columns[j], r) == Ok::<ValueView, ConvertErrorView>(
                        projected(values, fields[j].name)[r],
                    ) by {
                        assert(!failed()(outcomes[j]));
                        assert(columns[j] == outcomes[j]->Ok_0);
                    }
                    lemma_struct_round_trip(fields, values, columns, r);
                }
            }
        },
        _ => {
            if encode_spec(t, values) is Ok {
                assert forall|i: int| 0 <= i < n implies decode_spec(encode_spec(t, values)->Ok_0, i)
                    == Ok::<ValueView, ConvertErrorView>(#[trigger] values[i]) by {
                    assert(conforms(t, values[i]));
                    if values[i] is Decimal {
                        encode_utf8_valid_utf8(values[i]->Decimal_0);
                        encode_utf8_decode_utf8(values[i]->Decimal_0);
                    }
                }
            }
        },
    }
}

} // verus!
