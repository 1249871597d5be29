//! Function signatures: a name, the types of the arguments, the type of the
//! result, and the computation that is run on each row.

use vstd::prelude::*;
use crate::types::{DataType, TypeView};

verus! {

/// A named per-row computation together with its types.
///
/// `function` takes the arguments of one row and gives the result of that
/// row, or `None` where the row has no value, or an error of the host's
/// own. One computation may stand under several signatures.
pub struct FunctionSignature<F> {
    pub name: String,
    pub arg_types: Vec<DataType>,
    pub variadic: bool,
    pub return_type: DataType,
    pub function: F,
}

/// The mathematical value of a signature: everything but the computation.
pub struct SignatureView {
    pub name: Seq<char>,
    pub arg_types: Seq<TypeView>,
    pub variadic: bool,
    pub return_type: TypeView,
}

/// The views of a sequence of types.
pub open spec fn type_views(types: Seq<DataType>) -> Seq<TypeView> {
    Seq::new(types.len(), |k: int| types[k]@)
}

/// Whether arguments of the types `provided` fit the declared types.
///
/// Each declared type must be met exactly, position by position. A variadic
/// signature also takes any number of further arguments of its last
/// declared type; a signature that is not variadic takes none.
pub open spec fn accepts_args(declared: Seq<TypeView>, variadic: bool, provided: Seq<TypeView>) -> bool {
    &&& declared.len() <= provided.len()
    &&& forall|k: int| 0 <= k < declared.len() ==> #[trigger] provided[k] == declared[k]
    &&& declared.len() < provided.len() ==> {
        &&& variadic
        &&& declared.len() > 0
        &&& forall|k: int|
            declared.len() <= k < provided.len() ==> #[trigger] provided[k] == declared[declared.len()
                - 1]
    }
}

impl SignatureView {
    /// Whether a call by `name` with arguments of the types `provided`
    /// matches this signature.
    pub open spec fn matches(self, name: Seq<char>, provided: Seq<TypeView>) -> bool {
        self.name == name && accepts_args(self.arg_types, self.variadic, provided)
    }

    /// Whether this signature and `other` have the same name and the same
    /// declared argument types.
    pub open spec fn same_key(self, other: SignatureView) -> bool {
        self.name == other.name && self.arg_types == other.arg_types
    }
}

impl<F> View for FunctionSignature<F> {
    type V = SignatureView;

    open spec fn view(&self) -> SignatureView {
        SignatureView {
            name: self.name@,
            arg_types: type_views(self.arg_types@),
            variadic: self.variadic,
            return_type: self.return_type@,
        }
    }
}

/// Whether two lists of types are the same, position by position.
pub fn same_types(a: &Vec<DataType>, b: &Vec<DataType>) -> (r: bool)
    ensures
        r == (type_views(a@) == type_views(b@)),
{
    if a.len() != b.len() {
        assert(type_views(a@).len() != type_views(b@).len());
        return false;
    }
    let mut k: usize = 0;
    while k < a.len()
        invariant
            k <= a.len(),
            a.len() == b.len(),
            forall|q: int| 0 <= q < k ==> a[q]@ == b[q]@,
        decreases a.len() - k,
    {
        if !a[k].same(&b[k]) {
            assert(type_views(a@)[k as int] != type_views(b@)[k as int]);
            return false;
        }
        k += 1;
    }
    assert(type_views(a@) =~= type_views(b@));
    true
}

/// Whether arguments of the types `provided` fit the declared types.
pub fn fits(declared: &Vec<DataType>, variadic: bool, provided: &Vec<DataType>) -> (r: bool)
    ensures
        r == accepts_args(type_views(declared@), variadic, type_views(provided@)),
{
    let ghost d = type_views(declared@);
    let ghost p = type_views(provided@);
    if provided.len() < declared.len() {
        return false;
    }
    if provided.len() > declared.len() && (!variadic || declared.len() == 0) {
        return false;
    }
    let mut k: usize = 0;
    while k < provided.len()
        invariant
            k <= provided.len(),
            declared.len() <= provided.len(),
            declared.len() < provided.len() ==> declared.len() > 0,
            d == type_views(declared@),
            p == type_views(provided@),
            forall|q: int| 0 <= q < k && q < declared.len() ==> #[trigger] p[q] == d[q],
            forall|q: int| declared.len() <= q < k ==> #[trigger] p[q] == d[declared.len() - 1],
        decreases provided.len() - k,
    {
        let expected: &DataType = if k < declared.len() {
            &declared[k]
        } else {
            &declared[declared.len() - 1]
        };
        if !provided[k].same(expected) {
            assert(p[k as int] == provided[k as int]@);
            return false;
        }
        k += 1;
    }
    true
}

impl<F> FunctionSignature<F> {
    /// Whether a call by `name` with arguments of the types `provided`
    /// matches this signature.
    pub fn matches(&self, name: &String, provided: &Vec<DataType>) -> (r: bool)
        ensures
            r == self@.matches(name@, type_views(provided@)),
    {
        self.name == *name && fits(&self.arg_types, self.variadic, provided)
    }
}

} // verus!
