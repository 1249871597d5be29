//! The signature registry: several signatures may share a name, and a call
//! is resolved by its name and the types of its arguments.

use vstd::prelude::*;
use crate::signature::{same_types, type_views, FunctionSignature, SignatureView};
use crate::types::{DataType, TypeView};

verus! {

/// Why a registration or a lookup failed.
#[derive(Debug, PartialEq, Eq, Clone, Copy)]
pub enum RegistryError {
    /// No registered signature matches the call.
    NotFound,
    /// More than one registered signature matches the call.
    Ambiguous,
    /// A signature of the same name and argument types is registered
    /// already.
    Duplicate,
}

/// No two signatures have the same name and the same argument types.
pub open spec fn distinct(entries: Seq<SignatureView>) -> bool {
    forall|a: int, b: int|
        0 <= a < b < entries.len() ==> !(#[trigger] entries[a]).same_key(#[trigger] entries[b])
}

/// What registering `signature` comes to: the entries with the new one at
/// the end, unless its name and argument types are taken.
pub open spec fn register_spec(entries: Seq<SignatureView>, signature: SignatureView) -> Result<
    Seq<SignatureView>,
    RegistryError,
> {
    if exists|k: int| 0 <= k < entries.len() && (#[trigger] entries[k]).same_key(signature) {
        Err(RegistryError::Duplicate)
    } else {
        Ok(entries.push(signature))
    }
}

/// What looking up a call comes to: the position of the one entry that
/// matches it, or why there is no such position.
pub open spec fn lookup_spec(entries: Seq<SignatureView>, name: Seq<char>, provided: Seq<TypeView>) -> Result<
    int,
    RegistryError,
> {
    if forall|k: int| 0 <= k < entries.len() ==> !(#[trigger] entries[k]).matches(name, provided) {
        Err(RegistryError::NotFound)
    } else {
        let first = choose|k: int| 0 <= k < entries.len() && (#[trigger] entries[k]).matches(name, provided);
        if forall|k: int|
            0 <= k < entries.len() && (#[trigger] entries[k]).matches(name, provided) ==> k == first {
            Ok(first)
        } else {
            Err(RegistryError::Ambiguous)
        }
    }
}

/// The registered signatures, in the order of their registration.
pub struct Registry<F> {
    signatures: Vec<FunctionSignature<F>>,
}

impl<F> Registry<F> {
    /// The views of the registered signatures, in order.
    pub closed spec fn entries(&self) -> Seq<SignatureView> {
        Seq::new(self.signatures.len() as nat, |k: int| self.signatures[k]@)
    }

    /// A registry without signatures.
    pub fn new() -> (r: Self)
        ensures
            r.entries() == Seq::<SignatureView>::empty(),
            distinct(r.entries()),
    {
        let r = Registry { signatures: Vec::new() };
        assert(r.entries() =~= Seq::<SignatureView>::empty());
        r
    }

    /// The number of registered signatures.
    pub fn len(&self) -> (n: usize)
        ensures
            n == self.entries().len(),
    {
        self.signatures.len()
    }

    /// The signature at `position`, in the order of registration.
    pub fn get(&self, position: usize) -> (r: Option<&FunctionSignature<F>>)
        ensures
            match r {
                Some(signature) => position < self.entries().len() && signature@
                    == self.entries()[position as int],
                None => position >= self.entries().len(),
            },
    {
        if position < self.signatures.len() {
            Some(&self.signatures[position])
        } else {
            None
        }
    }

    /// Register a signature.
    ///
    /// A signature whose name and argument types are registered already is
    /// turned down, and the registry stays as it was: no entry is ever
    /// replaced.
    pub fn register(&mut self, signature: FunctionSignature<F>) -> (r: Result<(), RegistryError>)
        ensures
            match r {
                Ok(()) => register_spec(old(self).entries(), signature@) == Ok::<
                    Seq<SignatureView>,
                    RegistryError,
                >(final(self).entries()),
                Err(e) => register_spec(old(self).entries(), signature@) == Err::<
                    Seq<SignatureView>,
                    RegistryError,
                >(e) && final(self).entries() == old(self).entries(),
            },
            distinct(old(self).entries()) ==> distinct(final(self).entries()),
    {
        let mut k: usize = 0;
        while k < self.signatures.len()
            invariant
                k <= self.signatures.len(),
                self.entries() == old(self).entries(),
                self.signatures == old(self).signatures,
                forall|q: int| 0 <= q < k ==> !(#[trigger] self.entries()[q]).same_key(signature@),
            decreases self.signatures.len() - k,
        {
            let entry = &self.signatures[k];
            if entry.name == signature.name && same_types(&entry.arg_types, &signature.arg_types) {
                assert(self.entries()[k as int].same_key(signature@));
                return Err(RegistryError::Duplicate);
            }
            k += 1;
        }
        let ghost before = self.entries();
        let ghost added = signature@;
        self.signatures.push(signature);
        proof {
            assert(self.entries() =~= before.push(added));
        }
        Ok(())
    }

    /// Look up the signature for a call by `name` with arguments of the
    /// types `provided`.
    ///
    /// The call is resolved only if exactly one registered signature
    /// matches it.
    pub fn lookup(&self, name: &str, provided: &Vec<DataType>) -> (r: Result<
        &FunctionSignature<F>,
        RegistryError,
    >)
        ensures
            match r {
                Ok(signature) => {
                    &&& lookup_spec(self.entries(), name@, type_views(provided@)) is Ok
                    &&& signature@ == self.entries()[lookup_spec(
                        self.entries(),
                        name@,
                        type_views(provided@),
                    )->Ok_0]
                    &&& signature@.matches(name@, type_views(provided@))
                },
                Err(e) => lookup_spec(self.entries(), name@, type_views(provided@)) == Err::<
                    int,
                    RegistryError,
                >(e),
            },
    {
        let ghost entries = self.entries();
        let ghost types = type_views(provided@);
        let wanted: String = name.to_owned();
        let mut found: Option<usize> = None;
        let mut k: usize = 0;
        while k < self.signatures.len()
            invariant
                k <= self.signatures.len(),
                entries == self.entries(),
                types == type_views(provided@),
                wanted@ == name@,
                match found {
                    Some(at) => {
                        &&& at < k
                        &&& entries[at as int].matches(name@, types)
                        &&& forall|q: int|
                            0 <= q < k && (#[trigger] entries[q]).matches(name@, types) ==> q == at
                    },
                    None => forall|q: int| 0 <= q < k ==> !(#[trigger] entries[q]).matches(name@, types),
                },
            decreases self.signatures.len() - k,
        {
            if self.signatures[k].matches(&wanted, provided) {
                assert(entries[k as int].matches(name@, types));
                match found {
                    Some(at) => {
                        assert(entries[at as int].matches(name@, types));
                        return Err(RegistryError::Ambiguous);
                    },
                    None => {
                        found = Some(k);
                    },
                }
            }
            k += 1;
        }
        match found {
            Some(at) => Ok(&self.signatures[at]),
            None => Err(RegistryError::NotFound),
        }
    }
}

/// Signature uniqueness: once a signature is registered, one of the same
/// name and argument types is turned down, and every signature that was
/// registered stays where it was.
pub proof fn law_signature_uniqueness(
    entries: Seq<SignatureView>,
    first: SignatureView,
    second: SignatureView,
)
    requires
        first.same_key(second),
    ensures
        match register_spec(entries, first) {
            Ok(registered) => {
                &&& register_spec(registered, second) == Err::<Seq<SignatureView>, RegistryError>(
                    RegistryError::Duplicate,
                )
                &&& registered.len() == entries.len() + 1
                &&& forall|k: int| 0 <= k < entries.len() ==> registered[k] == entries[k]
                &&& distinct(entries) ==> distinct(registered)
            },
            Err(e) => e == RegistryError::Duplicate,
        },
{
    if register_spec(entries, first) is Ok {
        let registered = entries.push(first);
        assert(registered[entries.len() as int].same_key(second));
    }
}

/// Whether `b` holds the entries of `a` in another order: entry `k` of `b`
/// is entry `to[k]` of `a`, and entry `i` of `a` is entry `back[i]` of `b`.
pub open spec fn reordered(
    a: Seq<SignatureView>,
    b: Seq<SignatureView>,
    to: Seq<int>,
    back: Seq<int>,
) -> bool {
    &&& a.len() == b.len()
    &&& to.len() == a.len()
    &&& back.len() == a.len()
    &&& forall|k: int|
        0 <= k < b.len() ==> 0 <= #[trigger] to[k] < a.len() && back[to[k]] == k && b[k] == a[to[k]]
    &&& forall|i: int| 0 <= i < a.len() ==> 0 <= #[trigger] back[i] < b.len() && to[back[i]] == i
}

/// The order of registration does not matter to a lookup: over the same
/// entries in another order it fails in the same way, or finds the same
/// signature.
pub proof fn law_lookup_ignores_order(
    a: Seq<SignatureView>,
    b: Seq<SignatureView>,
    to: Seq<int>,
    back: Seq<int>,
    name: Seq<char>,
    provided: Seq<TypeView>,
)
    requires
        reordered(a, b, to, back),
    ensures
        match lookup_spec(a, name, provided) {
            Ok(i) => lookup_spec(b, name, provided) == Ok::<int, RegistryError>(back[i]) && b[back[i]]
                == a[i],
            Err(e) => lookup_spec(b, name, provided) == Err::<int, RegistryError>(e),
        },
{
    let found_a = lookup_spec(a, name, provided);
    let found_b = lookup_spec(b, name, provided);
    assert forall|k: int| 0 <= k < b.len() implies (#[trigger] b[k]).matches(name, provided) == a[to[k]].matches(
        name,
        provided,
    ) by {}
    assert forall|i: int| 0 <= i < a.len() implies (#[trigger] a[i]).matches(name, provided) == b[back[i]].matches(
        name,
        provided,
    ) by {
        assert(b[back[i]] == a[to[back[i]]]);
    }
    match found_a {
        Ok(i) => {
            assert(a[i].matches(name, provided));
            assert(b[back[i]].matches(name, provided));
            assert forall|k: int| 0 <= k < b.len() && (#[trigger] b[k]).matches(name, provided) implies k
                == back[i] by {
                assert(a[to[k]].matches(name, provided));
                assert(to[k] == i);
            }
            assert(b[back[i]] == a[to[back[i]]]);
        },
        Err(RegistryError::NotFound) => {
            assert forall|k: int| 0 <= k < b.len() implies !(#[trigger] b[k]).matches(name, provided) by {
                assert(!a[to[k]].matches(name, provided));
            }
        },
        Err(_) => {
            let first = choose|k: int| 0 <= k < a.len() && (#[trigger] a[k]).matches(name, provided);
            let other = choose|k: int|
                0 <= k < a.len() && (#[trigger] a[k]).matches(name, provided) && k != first;
            assert(b[back[first]].matches(name, provided));
            assert(b[back[other]].matches(name, provided));
            assert(to[back[first]] == first && to[back[other]] == other);
            assert(back[first] != back[other]);
        },
    }
}

} // verus!
