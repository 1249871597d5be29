//! Record batches: equally long column arrays, evaluated together.

use vstd::prelude::*;
use crate::arrow::{array_len, array_view, ArrowArray};
use crate::column::ColumnView;
use crate::decode::{broken, field_values, get_pyobject};
use crate::error::{ConvertError, ConvertErrorView};
use crate::search::{first_where, lemma_first_where_absent, lemma_first_where_found};
use crate::signature::type_views;
use crate::types::{DataType, Field, TypeView};
use crate::value::{Value, ValueView};

verus! {

/// A batch of rows, held column by column.
///
/// `schema` names and types the columns; `num_rows` is the number of rows of
/// every column, and the number of rows of a batch without columns.
pub struct RecordBatch {
    pub schema: Vec<Field>,
    pub columns: Vec<ArrowArray>,
    pub num_rows: usize,
}

/// The types of the fields of a schema, in order.
pub open spec fn schema_types(schema: Seq<Field>) -> Seq<TypeView> {
    Seq::new(schema.len(), |j: int| schema[j].data_type@)
}

/// The contents of the columns of a batch, in order.
pub open spec fn column_views(columns: Seq<ArrowArray>) -> Seq<ColumnView> {
    Seq::new(columns.len(), |j: int| array_view(columns[j]))
}

/// Whether a column fits a field of the schema of a batch of `rows` rows:
/// it has the type of the field, and has `rows` rows.
pub open spec fn column_fits(column: ColumnView, data_type: TypeView, rows: nat) -> bool {
    &&& column.data_type() == data_type
    &&& column.len() == rows
}

/// The arguments of row `i`: the values of that row of every column, in
/// order; or the error of the first column whose row fails to decode.
pub open spec fn row_spec(columns: Seq<ColumnView>, i: int) -> Result<Seq<ValueView>, ConvertErrorView> {
    let outcomes = field_values(columns, i);
    let failing = first_where(outcomes, broken(), outcomes.len() as int);
    if failing < outcomes.len() {
        Err(outcomes[failing]->Err_0)
    } else {
        Ok(Seq::new(outcomes.len(), |j: int| outcomes[j]->Ok_0))
    }
}

impl RecordBatch {
    /// The number of columns.
    pub open spec fn width(&self) -> nat {
        self.columns.len() as nat
    }

    /// The invariant of a batch: one column per field of the schema, each
    /// of the type of its field and as long as the batch.
    pub open spec fn wf(&self) -> bool {
        &&& self.schema.len() == self.columns.len()
        &&& forall|j: int|
            0 <= j < self.columns.len() ==> column_fits(
                array_view(#[trigger] self.columns[j]),
                self.schema[j].data_type@,
                self.num_rows as nat,
            )
    }

    /// A batch of the given columns.
    ///
    /// The caller owes that each column has the type of its field. That
    /// there is one column per field, at least one column, and that all
    /// columns are equally long is checked here.
    pub fn try_new(schema: Vec<Field>, columns: Vec<ArrowArray>) -> (r: Result<RecordBatch, ConvertError>)
        requires
            forall|j: int|
                0 <= j < columns.len() && j < schema.len() ==> array_view(
                    #[trigger] columns[j],
                ).data_type() == schema[j].data_type@,
        ensures
            r is Ok <==> {
                &&& schema.len() == columns.len()
                &&& columns.len() > 0
                &&& forall|j: int|
                    0 <= j < columns.len() ==> array_view(#[trigger] columns[j]).len() == array_view(
                        columns[0],
                    ).len()
            },
            match r {
                Ok(batch) => {
                    &&& batch.wf()
                    &&& batch.schema == schema
                    &&& batch.columns == columns
                    &&& batch.num_rows == array_view(columns[0]).len()
                },
                Err(e) => e@ == (ConvertErrorView::LengthInconsistency {
                    data_type: TypeView::Struct(Seq::new(schema.len() as nat, |j: int| schema[j]@)),
                }),
            },
    {
        if schema.len() != columns.len() || columns.len() == 0 {
            return Err(inconsistent_schema(schema));
        }
        let num_rows = array_len(&columns[0]);
        let mut j: usize = 1;
        while j < columns.len()
            invariant
                1 <= j <= columns.len(),
                num_rows == array_view(columns[0]).len(),
                forall|q: int| 0 <= q < j ==> array_view(#[trigger] columns[q]).len() == num_rows,
            decreases columns.len() - j,
        {
            if array_len(&columns[j]) != num_rows {
                return Err(inconsistent_schema(schema));
            }
            j += 1;
        }
        Ok(RecordBatch { schema, columns, num_rows })
    }

    /// A batch of `num_rows` rows without columns.
    pub fn with_row_count(num_rows: usize) -> (batch: RecordBatch)
        ensures
            batch.wf(),
            batch.width() == 0,
            batch.num_rows == num_rows,
    {
        RecordBatch { schema: Vec::new(), columns: Vec::new(), num_rows }
    }

    /// The types of the columns, in order.
    pub fn types(&self) -> (types: Vec<DataType>)
        ensures
            type_views(types@) == schema_types(self.schema@),
    {
        let mut types: Vec<DataType> = Vec::with_capacity(self.schema.len());
        let mut j: usize = 0;
        while j < self.schema.len()
            invariant
                j <= self.schema.len(),
                types.len() == j,
                forall|q: int| 0 <= q < j ==> (#[trigger] types[q])@ == self.schema[q].data_type@,
            decreases self.schema.len() - j,
        {
            types.push(self.schema[j].data_type.duplicate());
            j += 1;
        }
        assert(type_views(types@) =~= schema_types(self.schema@));
        types
    }

    /// The arguments of row `i`: that row of every column, decoded in order.
    pub fn row(&self, i: usize) -> (r: Result<Vec<Value>, ConvertError>)
        requires
            self.wf(),
            i < self.num_rows,
        ensures
            match r {
                Ok(values) => row_spec(column_views(self.columns@), i as int) == Ok::<
                    Seq<ValueView>,
                    ConvertErrorView,
                >(crate::encode::owned_views(values@)),
                Err(e) => row_spec(column_views(self.columns@), i as int) == Err::<
                    Seq<ValueView>,
                    ConvertErrorView,
                >(e@),
            },
    {
        let ghost views = column_views(self.columns@);
        let ghost outcomes = field_values(views, i as int);
        let mut values: Vec<Value> = Vec::with_capacity(self.columns.len());
        let mut j: usize = 0;
        while j < self.columns.len()
            invariant
                j <= self.columns.len(),
                self.wf(),
                i < self.num_rows,
                views == column_views(self.columns@),
                outcomes == field_values(views, i as int),
                values.len() == j,
                forall|q: int|
                    0 <= q < j ==> outcomes[q] == Ok::<ValueView, ConvertErrorView>(
                        (#[trigger] values[q])@,
                    ),
            decreases self.columns.len() - j,
        {
            proof {
                assert(column_fits(
                    array_view(self.columns[j as int]),
                    self.schema[j as int].data_type@,
                    self.num_rows as nat,
                ));
                assert(views[j as int] == array_view(self.columns[j as int]));
            }
            match get_pyobject(&self.schema[j].data_type, &self.columns[j], i) {
                Ok(value) => {
                    values.push(value);
                },
                Err(e) => {
                    proof {
                        assert(outcomes[j as int] == Err::<ValueView, ConvertErrorView>(e@));
                        assert(broken()(outcomes[j as int]));
                        assert forall|q: int| 0 <= q < j implies !broken()(#[trigger] outcomes[q]) by {
                            assert(outcomes[q] == Ok::<ValueView, ConvertErrorView>(values[q]@));
                        }
                        lemma_first_where_found(outcomes, broken(), outcomes.len() as int, j as int);
                    }
                    return Err(e);
                },
            }
            j += 1;
        }
        proof {
            assert forall|q: int| 0 <= q < outcomes.len() implies !broken()(#[trigger] outcomes[q]) by {
                assert(outcomes[q] == Ok::<ValueView, ConvertErrorView>(values[q]@));
            }
            lemma_first_where_absent(outcomes, broken(), outcomes.len() as int);
            assert(crate::encode::owned_views(values@) =~= Seq::new(
                outcomes.len(),
                |q: int| outcomes[q]->Ok_0,
            )) by {
                assert forall|q: int| 0 <= q < outcomes.len() implies crate::encode::owned_views(
                    values@,
                )[q] == outcomes[q]->Ok_0 by {
                    assert(outcomes[q] == Ok::<ValueView, ConvertErrorView>(values[q]@));
                }
            }
        }
        Ok(values)
    }
}

/// The length inconsistency of a batch with the given schema.
fn inconsistent_schema(schema: Vec<Field>) -> (e: ConvertError)
    ensures
        e@ == (ConvertErrorView::LengthInconsistency {
            data_type: TypeView::Struct(Seq::new(schema.len() as nat, |j: int| schema[j]@)),
        }),
{
    let ghost fields = Seq::new(schema.len() as nat, |j: int| schema[j]@);
    let data_type = DataType::Struct(schema);
    assert(data_type@->Struct_0 =~= fields);
    ConvertError::LengthInconsistency { data_type }
}

} // verus!
