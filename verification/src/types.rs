//! Logical type descriptors: the closed set of column types that drives both
//! directions of conversion.

use vstd::prelude::*;

verus! {

/// The logical type of a column.
///
/// `Json` columns carry JSON documents as text, `Decimal` columns carry
/// arbitrary-precision decimal numbers as the UTF-8 bytes of their text.
#[derive(Debug, PartialEq, Eq)]
pub enum DataType {
    Null,
    Boolean,
    Int8,
    Int16,
    Int32,
    Int64,
    UInt8,
    UInt16,
    UInt32,
    UInt64,
    Float32,
    Float64,
    Utf8,
    Binary,
    Json,
    Decimal,
    /// A list whose elements all have the given type.
    List(Box<DataType>),
    /// A struct with the given fields, in declared order.
    Struct(Vec<Field>),
}

/// A named field of a struct type.
#[derive(Debug, PartialEq, Eq)]
pub struct Field {
    pub name: String,
    pub data_type: DataType,
}

/// The mathematical value of a [`DataType`].
pub enum TypeView {
    Null,
    Boolean,
    Int8,
    Int16,
    Int32,
    Int64,
    UInt8,
    UInt16,
    UInt32,
    UInt64,
    Float32,
    Float64,
    Utf8,
    Binary,
    Json,
    Decimal,
    List(Box<TypeView>),
    Struct(Seq<FieldView>),
}

/// The mathematical value of a [`Field`].
pub struct FieldView {
    pub name: Seq<char>,
    pub data_type: TypeView,
}

impl DataType {
    /// The mathematical value of this type: field names become character
    /// sequences, field lists become sequences.
    pub open spec fn model(self) -> TypeView
        decreases self,
    {
        match self {
            DataType::Null => TypeView::Null,
            DataType::Boolean => TypeView::Boolean,
            DataType::Int8 => TypeView::Int8,
            DataType::Int16 => TypeView::Int16,
            DataType::Int32 => TypeView::Int32,
            DataType::Int64 => TypeView::Int64,
            DataType::UInt8 => TypeView::UInt8,
            DataType::UInt16 => TypeView::UInt16,
            DataType::UInt32 => TypeView::UInt32,
            DataType::UInt64 => TypeView::UInt64,
            DataType::Float32 => TypeView::Float32,
            DataType::Float64 => TypeView::Float64,
            DataType::Utf8 => TypeView::Utf8,
            DataType::Binary => TypeView::Binary,
            DataType::Json => TypeView::Json,
            DataType::Decimal => TypeView::Decimal,
            DataType::List(element) => TypeView::List(Box::new(element.model())),
            DataType::Struct(fields) => TypeView::Struct(
                Seq::new(
                    fields.len() as nat,
                    |j: int|
                        FieldView {
                            name: fields[j].name@,
                            data_type: if 0 <= j < fields.len() {
                                fields[j].data_type.model()
                            } else {
                                TypeView::Null
                            },
                        },
                ),
            ),
        }
    }
}

impl View for DataType {
    type V = TypeView;

    open spec fn view(&self) -> TypeView {
        self.model()
    }
}

impl View for Field {
    type V = FieldView;

    open spec fn view(&self) -> FieldView {
        FieldView { name: self.name@, data_type: self.data_type@ }
    }
}

impl DataType {
    /// Whether two types are the same type: same variant, same element
    /// type, same fields by name and type in the same order.
    pub fn same(&self, other: &DataType) -> (r: bool)
        ensures
            r == (self@ == other@),
        decreases self,
    {
        match (self, other) {
            (DataType::Null, DataType::Null) => true,
            (DataType::Boolean, DataType::Boolean) => true,
            (DataType::Int8, DataType::Int8) => true,
            (DataType::Int16, DataType::Int16) => true,
            (DataType::Int32, DataType::Int32) => true,
            (DataType::Int64, DataType::Int64) => true,
            (DataType::UInt8, DataType::UInt8) => true,
            (DataType::UInt16, DataType::UInt16) => true,
            (DataType::UInt32, DataType::UInt32) => true,
            (DataType::UInt64, DataType::UInt64) => true,
            (DataType::Float32, DataType::Float32) => true,
            (DataType::Float64, DataType::Float64) => true,
            (DataType::Utf8, DataType::Utf8) => true,
            (DataType::Binary, DataType::Binary) => true,
            (DataType::Json, DataType::Json) => true,
            (DataType::Decimal, DataType::Decimal) => true,
            (DataType::List(a), DataType::List(b)) => a.same(b),
            (DataType::Struct(a), DataType::Struct(b)) => {
                assert(self@->Struct_0.len() == a.len() && other@->Struct_0.len() == b.len());
                if a.len() != b.len() {
                    return false;
                }
                let mut j: usize = 0;
                while j < a.len()
                    invariant
                        j <= a.len(),
                        a.len() == b.len(),
                        *self == DataType::Struct(*a),
                        *other == DataType::Struct(*b),
                        forall|k: int| 0 <= k < j ==> a[k]@ == b[k]@,
                    decreases a.len() - j,
                {
                    assert(self@->Struct_0[j as int] == a[j as int]@);
                    assert(other@->Struct_0[j as int] == b[j as int]@);
                    if !(a[j].name == b[j].name) || !a[j].data_type.same(&b[j].data_type) {
                        return false;
                    }
                    j += 1;
                }
                assert(self@->Struct_0 =~= other@->Struct_0);
                true
            },
            _ => false,
        }
    }

    /// A copy of this type.
    pub fn duplicate(&self) -> (r: DataType)
        ensures
            r@ == self@,
        decreases self,
    {
        match self {
            DataType::Null => DataType::Null,
            DataType::Boolean => DataType::Boolean,
            DataType::Int8 => DataType::Int8,
            DataType::Int16 => DataType::Int16,
            DataType::Int32 => DataType::Int32,
            DataType::Int64 => DataType::Int64,
            DataType::UInt8 => DataType::UInt8,
            DataType::UInt16 => DataType::UInt16,
            DataType::UInt32 => DataType::UInt32,
            DataType::UInt64 => DataType::UInt64,
            DataType::Float32 => DataType::Float32,
            DataType::Float64 => DataType::Float64,
            DataType::Utf8 => DataType::Utf8,
            DataType::Binary => DataType::Binary,
            DataType::Json => DataType::Json,
            DataType::Decimal => DataType::Decimal,
            DataType::List(element) => DataType::List(Box::new(element.duplicate())),
            DataType::Struct(fields) => {
                let mut copy: Vec<Field> = Vec::with_capacity(fields.len());
                let mut j: usize = 0;
                while j < fields.len()
                    invariant
                        j <= fields.len(),
                        copy.len() == j,
                        *self == DataType::Struct(*fields),
                        forall|k: int| 0 <= k < j ==> copy[k]@ == fields[k]@,
                    decreases fields.len() - j,
                {
                    assert(self->Struct_0 == *fields);
                    assert(decreases_to!(*fields => fields[j as int]));
                    let field = Field {
                        name: fields[j].name.clone(),
                        data_type: fields[j].data_type.duplicate(),
                    };
                    copy.push(field);
                    j += 1;
                }
                let r = DataType::Struct(copy);
                assert(r@->Struct_0 =~= self@->Struct_0);
                r
            },
        }
    }
}

} // verus!
