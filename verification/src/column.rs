//! The mathematical model of a column array: what it holds, row by row, and
//! the invariants that tie offsets, validity and child columns together.

use vstd::prelude::*;
use crate::types::{FieldView, TypeView};

verus! {

/// What a column array holds.
///
/// A leaf column is a sequence of optional values, `None` marking a null
/// row. Floating-point columns hold the IEEE 754 bit patterns of their
/// values. A list column holds one flattened child column and `N + 1`
/// offsets into it; a struct column holds one child column per field. List
/// and struct columns carry their own validity, `false` marking a null row.
pub enum ColumnView {
    /// A column of the null type with the given number of rows, all null.
    Null(nat),
    Boolean(Seq<Option<bool>>),
    Int8(Seq<Option<i8>>),
    Int16(Seq<Option<i16>>),
    Int32(Seq<Option<i32>>),
    Int64(Seq<Option<i64>>),
    UInt8(Seq<Option<u8>>),
    UInt16(Seq<Option<u16>>),
    UInt32(Seq<Option<u32>>),
    UInt64(Seq<Option<u64>>),
    Float32(Seq<Option<u32>>),
    Float64(Seq<Option<u64>>),
    Utf8(Seq<Option<Seq<char>>>),
    Binary(Seq<Option<Seq<u8>>>),
    Json(Seq<Option<Seq<char>>>),
    Decimal(Seq<Option<Seq<u8>>>),
    List { validity: Seq<bool>, offsets: Seq<int>, values: Box<ColumnView> },
    Struct { validity: Seq<bool>, names: Seq<Seq<char>>, columns: Seq<ColumnView> },
}

impl ColumnView {
    /// The number of rows.
    pub open spec fn len(self) -> nat {
        match self {
            ColumnView::Null(n) => n,
            ColumnView::Boolean(rows) => rows.len(),
            ColumnView::Int8(rows) => rows.len(),
            ColumnView::Int16(rows) => rows.len(),
            ColumnView::Int32(rows) => rows.len(),
            ColumnView::Int64(rows) => rows.len(),
            ColumnView::UInt8(rows) => rows.len(),
            ColumnView::UInt16(rows) => rows.len(),
            ColumnView::UInt32(rows) => rows.len(),
            ColumnView::UInt64(rows) => rows.len(),
            ColumnView::Float32(rows) => rows.len(),
            ColumnView::Float64(rows) => rows.len(),
            ColumnView::Utf8(rows) => rows.len(),
            ColumnView::Binary(rows) => rows.len(),
            ColumnView::Json(rows) => rows.len(),
            ColumnView::Decimal(rows) => rows.len(),
            ColumnView::List { validity, .. } => validity.len(),
            ColumnView::Struct { validity, .. } => validity.len(),
        }
    }

    /// Whether row `i` is null.
    pub open spec fn is_null(self, i: int) -> bool {
        match self {
            ColumnView::Null(_) => true,
            ColumnView::Boolean(rows) => rows[i] is None,
            ColumnView::Int8(rows) => rows[i] is None,
            ColumnView::Int16(rows) => rows[i] is None,
            ColumnView::Int32(rows) => rows[i] is None,
            ColumnView::Int64(rows) => rows[i] is None,
            ColumnView::UInt8(rows) => rows[i] is None,
            ColumnView::UInt16(rows) => rows[i] is None,
            ColumnView::UInt32(rows) => rows[i] is None,
            ColumnView::UInt64(rows) => rows[i] is None,
            ColumnView::Float32(rows) => rows[i] is None,
            ColumnView::Float64(rows) => rows[i] is None,
            ColumnView::Utf8(rows) => rows[i] is None,
            ColumnView::Binary(rows) => rows[i] is None,
            ColumnView::Json(rows) => rows[i] is None,
            ColumnView::Decimal(rows) => rows[i] is None,
            ColumnView::List { validity, .. } => !validity[i],
            ColumnView::Struct { validity, .. } => !validity[i],
        }
    }

    /// The logical type of the column.
    pub open spec fn data_type(self) -> TypeView
        decreases self,
    {
        match self {
            ColumnView::Null(_) => TypeView::Null,
            ColumnView::Boolean(_) => TypeView::Boolean,
            ColumnView::Int8(_) => TypeView::Int8,
            ColumnView::Int16(_) => TypeView::Int16,
            ColumnView::Int32(_) => TypeView::Int32,
            ColumnView::Int64(_) => TypeView::Int64,
            ColumnView::UInt8(_) => TypeView::UInt8,
            ColumnView::UInt16(_) => TypeView::UInt16,
            ColumnView::UInt32(_) => TypeView::UInt32,
            ColumnView::UInt64(_) => TypeView::UInt64,
            ColumnView::Float32(_) => TypeView::Float32,
            ColumnView::Float64(_) => TypeView::Float64,
            ColumnView::Utf8(_) => TypeView::Utf8,
            ColumnView::Binary(_) => TypeView::Binary,
            ColumnView::Json(_) => TypeView::Json,
            ColumnView::Decimal(_) => TypeView::Decimal,
            ColumnView::List { values, .. } => TypeView::List(Box::new(values.data_type())),
            ColumnView::Struct { names, columns, .. } => TypeView::Struct(
                Seq::new(
                    columns.len(),
                    |j: int|
                        FieldView {
                            name: names[j],
                            data_type: if 0 <= j < columns.len() {
                                columns[j].data_type()
                            } else {
                                TypeView::Null
                            },
                        },
                ),
            ),
        }
    }

    /// The invariant of a column array.
    ///
    /// A list column of `N` rows has `N + 1` offsets, which start at or
    /// above zero, never decrease, and end within the child column. A struct
    /// column has one name per child column, and each child column has as
    /// many rows as the struct column itself.
    pub open spec fn wf(self) -> bool
        decreases self,
    {
        match self {
            ColumnView::List { validity, offsets, values } => {
                &&& offsets.len() == validity.len() + 1
                &&& 0 <= offsets[0]
                &&& forall|k: int| 0 <= k < validity.len() ==> offsets[k] <= #[trigger] offsets[k + 1]
                &&& offsets[validity.len() as int] <= values.len()
                &&& values.wf()
            },
            ColumnView::Struct { validity, names, columns } => {
                &&& names.len() == columns.len()
                &&& forall|j: int|
                    0 <= j < columns.len() ==> {
                        &&& (#[trigger] columns[j]).len() == validity.len()
                        &&& columns[j].wf()
                    }
            },
            _ => true,
        }
    }
}

/// The offsets of a list column never decrease, over any distance.
pub proof fn lemma_offsets_monotone(column: ColumnView, a: int, b: int)
    requires
        column is List,
        column.wf(),
        0 <= a <= b <= column.len(),
    ensures
        column->List_offsets[a] <= column->List_offsets[b],
    decreases b - a,
{
    if a < b {
        lemma_offsets_monotone(column, a, b - 1);
        assert(column->List_offsets[b - 1] <= column->List_offsets[(b - 1) + 1]);
    }
}

/// The span of every row of a list column lies within the child column.
pub proof fn lemma_offsets_ordered(column: ColumnView, a: int, b: int)
    requires
        column is List,
        column.wf(),
        0 <= a <= b <= column.len(),
    ensures
        0 <= column->List_offsets[a] <= column->List_offsets[b] <= column->List_values.len(),
{
    lemma_offsets_monotone(column, 0, a);
    lemma_offsets_monotone(column, a, b);
    lemma_offsets_monotone(column, b, column.len() as int);
}

} // verus!
