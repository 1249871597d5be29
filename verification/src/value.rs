//! Dynamic values: the per-row representation that a host computation
//! consumes and produces.

use vstd::prelude::*;
use crate::search::{first_where, lemma_first_where_absent, lemma_first_where_found};

verus! {

/// One dynamically typed value.
///
/// Integers of every width share `Int`. Floating-point numbers are held by
/// their IEEE 754 bit patterns, so that no value is changed on its way
/// through. A JSON document and a decimal number are held by their text.
#[derive(Debug, PartialEq, Eq)]
pub enum Value {
    /// The absence of a value.
    Null,
    Bool(bool),
    Int(i128),
    /// The bit pattern of a single-precision number.
    Float32(u32),
    /// The bit pattern of a double-precision number.
    Float64(u64),
    Str(String),
    Bytes(Vec<u8>),
    /// A JSON document, by its text.
    Json(String),
    /// An arbitrary-precision decimal number, by its text.
    Decimal(String),
    /// An ordered sequence of values.
    List(Vec<Value>),
    /// An aggregate of named fields, in order.
    Struct(Vec<(String, Value)>),
}

/// The mathematical value of a [`Value`].
pub enum ValueView {
    Null,
    Bool(bool),
    Int(int),
    Float32(u32),
    Float64(u64),
    Str(Seq<char>),
    Bytes(Seq<u8>),
    Json(Seq<char>),
    Decimal(Seq<char>),
    List(Seq<ValueView>),
    Struct(Seq<(Seq<char>, ValueView)>),
}

impl Value {
    /// The mathematical value: strings become character sequences, vectors
    /// become sequences, at every depth.
    pub open spec fn model(self) -> ValueView
        decreases self,
    {
        match self {
            Value::Null => ValueView::Null,
            Value::Bool(b) => ValueView::Bool(b),
            Value::Int(v) => ValueView::Int(v as int),
            Value::Float32(bits) => ValueView::Float32(bits),
            Value::Float64(bits) => ValueView::Float64(bits),
            Value::Str(s) => ValueView::Str(s@),
            Value::Bytes(b) => ValueView::Bytes(b@),
            Value::Json(s) => ValueView::Json(s@),
            Value::Decimal(s) => ValueView::Decimal(s@),
            Value::List(items) => ValueView::List(
                Seq::new(
                    items.len() as nat,
                    |k: int|
                        if 0 <= k < items.len() {
                            items[k].model()
                        } else {
                            ValueView::Null
                        },
                ),
            ),
            Value::Struct(entries) => ValueView::Struct(
                Seq::new(
                    entries.len() as nat,
                    |k: int|
                        (
                            entries[k].0@,
                            if 0 <= k < entries.len() {
                                entries[k].1.model()
                            } else {
                                ValueView::Null
                            },
                        ),
                ),
            ),
        }
    }
}

impl View for Value {
    type V = ValueView;

    open spec fn view(&self) -> ValueView {
        self.model()
    }
}

/// The fields that are called `name`.
pub open spec fn called(name: Seq<char>) -> spec_fn((Seq<char>, ValueView)) -> bool {
    |entry: (Seq<char>, ValueView)| entry.0 == name
}

impl ValueView {
    /// The position of the first field called `name`, or the number of
    /// fields if there is none.
    pub open spec fn position(entries: Seq<(Seq<char>, ValueView)>, name: Seq<char>) -> int {
        first_where(entries, called(name), entries.len() as int)
    }

    /// The field called `name` of a struct value: the first one of that
    /// name. `None` for a value that is no struct or has no such field.
    pub open spec fn field(self, name: Seq<char>) -> Option<ValueView> {
        match self {
            ValueView::Struct(entries) => {
                let p = Self::position(entries, name);
                if p < entries.len() {
                    Some(entries[p].1)
                } else {
                    None
                }
            },
            _ => None,
        }
    }
}

impl Value {
    /// The field called `name`, as an attribute is read off an object.
    pub fn field(&self, name: &String) -> (r: Option<&Value>)
        ensures
            match r {
                Some(v) => self@.field(name@) == Some(v@),
                None => self@.field(name@) is None,
            },
    {
        match self {
            Value::Struct(entries) => {
                let mut k: usize = 0;
                while k < entries.len()
                    invariant
                        k <= entries.len(),
                        *self == Value::Struct(*entries),
                        forall|j: int| 0 <= j < k ==> entries[j].0@ != name@,
                    decreases entries.len() - k,
                {
                    if entries[k].0 == *name {
                        proof {
                            let entries_view = self@->Struct_0;
                            let named = called(name@);
                            assert(named(entries_view[k as int]));
                            assert forall|j: int| 0 <= j < k implies !named(#[trigger] entries_view[j]) by {
                                assert(entries_view[j].0 == entries[j].0@);
                            }
                            lemma_first_where_found(entries_view, named, entries_view.len() as int, k as int);
                        }
                        return Some(&entries[k].1);
                    }
                    k += 1;
                }
                proof {
                    let entries_view = self@->Struct_0;
                    let named = called(name@);
                    assert forall|j: int| 0 <= j < entries_view.len() implies !named(#[trigger] entries_view[j]) by {
                        assert(entries_view[j].0 == entries[j].0@);
                    }
                    lemma_first_where_absent(entries_view, named, entries_view.len() as int);
                }
                None
            },
            _ => None,
        }
    }
}

} // verus!
