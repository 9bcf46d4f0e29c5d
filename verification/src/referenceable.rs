use vstd::prelude::*;

verus! {

use crate::error::FsError;

/// Decidable equality with a stated meaning, used where contracts must
/// speak about comparisons of cached references and values.
pub trait ValueEq: Sized {
    /// What equality means for this type.
    spec fn eq_at(&self, other: &Self) -> bool;

    /// Equality at a value is reflexive.
    proof fn eq_at_reflexive(&self)
        ensures
            self.eq_at(self),
    ;

    /// Decides `eq_at`.
    fn value_eq(&self, other: &Self) -> (r: bool)
        ensures
            r == self.eq_at(other),
    ;
}

/// The store adapter a lazy cell resolves against: it can fetch the value
/// behind a reference and persist a value, yielding a reference.  The
/// ghost fetch counter makes the at-most-once caching guarantee a stated
/// fact rather than a promise.
pub trait ReferenceableStore<R, V>: Sized {
    /// What the store currently resolves: a map from references to values.
    spec fn contents(&self) -> Map<R, V>;

    /// How many fetches the store has performed.
    spec fn fetches(&self) -> nat;

    /// Fetches the value behind `reference`.  Performs exactly one fetch;
    /// on success the result is what the store held under the reference.
    fn get_value(&mut self, reference: &R) -> (res: Result<V, FsError>)
        ensures
            final(self).contents() == old(self).contents(),
            final(self).fetches() == old(self).fetches() + 1,
            res matches Ok(v) ==> (old(self).contents().contains_key(*reference) ==> v == old(self).contents()[*reference]),
    ;

    /// Persists `value`.  Performs no fetch; on success the returned
    /// reference resolves to the stored value.
    fn put_value(&mut self, value: &V) -> (res: Result<R, FsError>)
        ensures
            final(self).fetches() == old(self).fetches(),
            res matches Ok(r) ==> final(self).contents().contains_key(r)
                && final(self).contents()[r] == *value,
    ;
}

/// A lazy reference cell: starts out as either a content reference or a
/// decoded value, and converts to the other form on demand, caching the
/// result at most once.  At least one of the two is always available
/// without store traffic.
pub enum Referenceable<R, V> {
    /// Starts as a reference; the decoded value is cached at most once.
    Encoded { reference: R, value_cache: Option<V> },
    /// Starts as a value; the computed reference is cached at most once.
    Decoded { value: V, reference_cache: Option<R> },
}

impl<R, V> Referenceable<R, V> {
    /// The reference, if available without store traffic.
    pub open spec fn spec_reference(self) -> Option<R> {
        match self {
            Referenceable::Encoded { reference, .. } => Some(reference),
            Referenceable::Decoded { reference_cache, .. } => reference_cache,
        }
    }

    /// The value, if available without store traffic.
    pub open spec fn spec_value(self) -> Option<V> {
        match self {
            Referenceable::Encoded { value_cache, .. } => value_cache,
            Referenceable::Decoded { value, .. } => Some(value),
        }
    }

    /// A cell that starts out as a reference, with an empty value cache.
    pub fn from_reference(reference: R) -> (r: Self)
        ensures
            r == (Referenceable::Encoded { reference, value_cache: None::<V> }),
    {
        Referenceable::Encoded { reference, value_cache: None }
    }

    /// The cached value, if any.  Never performs store traffic.
    pub fn get_value(&self) -> (r: Option<&V>)
        ensures
            match r {
                Some(v) => self.spec_value() == Some(*v),
                None => self.spec_value() is None,
            },
    {
        match self {
            Referenceable::Encoded { value_cache, .. } => value_cache.as_ref(),
            Referenceable::Decoded { value, .. } => Some(value),
        }
    }

    /// The cached reference, if any.  Never performs store traffic.
    pub fn get_reference(&self) -> (r: Option<&R>)
        ensures
            match r {
                Some(rf) => self.spec_reference() == Some(*rf),
                None => self.spec_reference() is None,
            },
    {
        match self {
            Referenceable::Encoded { reference, .. } => Some(reference),
            Referenceable::Decoded { reference_cache, .. } => reference_cache.as_ref(),
        }
    }

    /// Whether a value is available without store traffic.
    pub fn has_value(&self) -> (b: bool)
        ensures
            b == (self.spec_value() is Some),
    {
        match self {
            Referenceable::Encoded { value_cache, .. } => value_cache.is_some(),
            Referenceable::Decoded { .. } => true,
        }
    }

    /// Whether a reference is available without store traffic.
    pub fn has_reference(&self) -> (b: bool)
        ensures
            b == (self.spec_reference() is Some),
    {
        match self {
            Referenceable::Encoded { .. } => true,
            Referenceable::Decoded { reference_cache, .. } => reference_cache.is_some(),
        }
    }

    /// The value, fetched through the store if it is not yet cached and
    /// cached permanently afterwards.  However often this is called, the
    /// store fetch runs at most once: a cell that already holds its value
    /// leaves the store's fetch count unchanged.
    pub fn resolve_value<'a, RS: ReferenceableStore<R, V>>(&'a mut self, store: &mut RS) -> (res:
        Result<&'a V, FsError>)
        ensures
            final(self).spec_reference() == old(self).spec_reference(),
            final(store).contents() == old(store).contents(),
            old(self).spec_value() is Some ==> {
                &&& final(store).fetches() == old(store).fetches()
                &&& *final(self) == *old(self)
                &&& res matches Ok(v) && Some(*v) == old(self).spec_value()
            },
            old(self).spec_value() is None ==> {
                &&& final(store).fetches() == old(store).fetches() + 1
                &&& (res matches Ok(v) ==> {
                    &&& (old(store).contents().contains_key(old(self).spec_reference().unwrap())
                        ==> *v == old(store).contents()[old(self).spec_reference().unwrap()])
                    &&& final(self).spec_value() == Some(*v)
                })
                &&& (res is Err ==> *final(self) == *old(self))
            },
    {
        match self {
            Referenceable::Decoded { value, .. } => Ok(value),
            Referenceable::Encoded { reference, value_cache } => {
                if value_cache.is_some() {
                    Ok(value_cache.as_ref().unwrap())
                } else {
                    match store.get_value(reference) {
                        Ok(v) => {
                            *value_cache = Some(v);
                            Ok(value_cache.as_ref().unwrap())
                        },
                        Err(e) => Err(e),
                    }
                }
            },
        }
    }

    /// The reference, computed by persisting the value through the store
    /// if it is not yet cached and cached permanently afterwards.  The
    /// store write runs at most once per cell.
    pub fn resolve_reference<'a, RS: ReferenceableStore<R, V>>(&'a mut self, store: &mut RS) -> (
        res: Result<&'a R, FsError>)
        ensures
            final(self).spec_value() == old(self).spec_value(),
            final(store).fetches() == old(store).fetches(),
            old(self).spec_reference() is Some ==> {
                &&& final(store).contents() == old(store).contents()
                &&& *final(self) == *old(self)
                &&& res matches Ok(r) && Some(*r) == old(self).spec_reference()
            },
            old(self).spec_reference() is None ==> {
                &&& (res matches Ok(r) ==> {
                    &&& final(store).contents().contains_key(*r)
                    &&& final(store).contents()[*r] == old(self).spec_value().unwrap()
                    &&& final(self).spec_reference() == Some(*r)
                })
                &&& (res is Err ==> *final(self) == *old(self))
            },
    {
        match self {
            Referenceable::Encoded { reference, .. } => Ok(reference),
            Referenceable::Decoded { value, reference_cache } => {
                if reference_cache.is_some() {
                    Ok(reference_cache.as_ref().unwrap())
                } else {
                    match store.put_value(value) {
                        Ok(r) => {
                            *reference_cache = Some(r);
                            Ok(reference_cache.as_ref().unwrap())
                        },
                        Err(e) => Err(e),
                    }
                }
            },
        }
    }

    /// Takes the value out of the cell, fetching it through the store if
    /// it is not cached.
    pub fn get_owned_value<RS: ReferenceableStore<R, V>>(self, store: &mut RS) -> (res: Result<
        V,
        FsError,
    >)
        ensures
            self.spec_value() is Some ==> {
                &&& final(store).fetches() == old(store).fetches()
                &&& final(store).contents() == old(store).contents()
                &&& res matches Ok(v) && Some(v) == self.spec_value()
            },
            self.spec_value() is None ==> {
                &&& final(store).fetches() == old(store).fetches() + 1
                &&& final(store).contents() == old(store).contents()
                &&& (res matches Ok(v) ==> (old(store).contents().contains_key(
                    self.spec_reference().unwrap(),
                ) ==> v == old(store).contents()[self.spec_reference().unwrap()]))
            },
    {
        match self {
            Referenceable::Encoded { reference, value_cache } => {
                match value_cache {
                    Some(cached) => Ok(cached),
                    None => store.get_value(&reference),
                }
            },
            Referenceable::Decoded { value, .. } => Ok(value),
        }
    }
}

impl<R: Clone, V: Clone> Clone for Referenceable<R, V> {
    /// A copy with the same shape: whichever of reference and value the
    /// cell holds, and whatever it has cached, is cloned; neither side is
    /// dropped or resolved.
    fn clone(&self) -> (r: Self)
        ensures
            r is Encoded <==> self is Encoded,
            r.spec_reference() is Some <==> self.spec_reference() is Some,
            r.spec_value() is Some <==> self.spec_value() is Some,
            self.spec_reference() matches Some(rf) ==> vstd::pervasive::cloned::<R>(
                rf,
                r.spec_reference().unwrap(),
            ),
            self.spec_value() matches Some(v) ==> vstd::pervasive::cloned::<V>(
                v,
                r.spec_value().unwrap(),
            ),
    {
        match self {
            Referenceable::Encoded { reference, value_cache } => Referenceable::Encoded {
                reference: reference.clone(),
                value_cache: value_cache.clone(),
            },
            Referenceable::Decoded { value, reference_cache } => Referenceable::Decoded {
                value: value.clone(),
                reference_cache: reference_cache.clone(),
            },
        }
    }
}

impl<R, V> From<V> for Referenceable<R, V> {
    /// A cell that starts out as an owned value, with an empty reference
    /// cache.
    fn from(value: V) -> (r: Self) {
        Referenceable::Decoded { value, reference_cache: None }
    }
}

impl<R, V> vstd::std_specs::convert::FromSpecImpl<V> for Referenceable<R, V> {
    open spec fn obeys_from_spec() -> bool {
        true
    }

    open spec fn from_spec(value: V) -> Self {
        Referenceable::Decoded { value, reference_cache: None }
    }
}

impl<R: ValueEq, V: ValueEq> Referenceable<R, V> {
    /// What `==` on two cells means: references are compared when both
    /// sides have one available, otherwise values when both sides have
    /// one, otherwise whatever single cross comparison is possible; two
    /// cells with nothing comparable are unequal.
    pub open spec fn compare_spec(self, other: Self) -> bool {
        match (self, other) {
            (
                Referenceable::Encoded { reference: r1, .. },
                Referenceable::Encoded { reference: r2, .. },
            ) => r1.eq_at(&r2),
            (
                Referenceable::Decoded { value: v1, .. },
                Referenceable::Decoded { value: v2, .. },
            ) => v1.eq_at(&v2),
            (
                Referenceable::Encoded { reference: r1, value_cache: c1 },
                Referenceable::Decoded { value: v2, reference_cache: rc2 },
            ) => {
                if rc2 is Some {
                    r1.eq_at(&rc2.unwrap())
                } else if c1 is Some {
                    c1.unwrap().eq_at(&v2)
                } else {
                    false
                }
            },
            (
                Referenceable::Decoded { value: v1, reference_cache: rc1 },
                Referenceable::Encoded { reference: r2, value_cache: c2 },
            ) => {
                if rc1 is Some {
                    rc1.unwrap().eq_at(&r2)
                } else if c2 is Some {
                    v1.eq_at(&c2.unwrap())
                } else {
                    false
                }
            },
        }
    }
}

impl<R: ValueEq, V: ValueEq> PartialEq for Referenceable<R, V> {
    /// Plain equality over whatever is available on each side, without
    /// store traffic.
    fn eq(&self, other: &Self) -> (r: bool) {
        match (self, other) {
            (
                Referenceable::Encoded { reference: r1, .. },
                Referenceable::Encoded { reference: r2, .. },
            ) => r1.value_eq(r2),
            (
                Referenceable::Decoded { value: v1, .. },
                Referenceable::Decoded { value: v2, .. },
            ) => v1.value_eq(v2),
            (
                Referenceable::Encoded { reference: r1, value_cache: c1 },
                Referenceable::Decoded { value: v2, reference_cache: rc2 },
            ) => {
                match rc2 {
                    Some(r2) => r1.value_eq(r2),
                    None => match c1 {
                        Some(v1) => v1.value_eq(v2),
                        None => false,
                    },
                }
            },
            (
                Referenceable::Decoded { value: v1, reference_cache: rc1 },
                Referenceable::Encoded { reference: r2, value_cache: c2 },
            ) => {
                match rc1 {
                    Some(r1) => r1.value_eq(r2),
                    None => match c2 {
                        Some(v2) => v1.value_eq(v2),
                        None => false,
                    },
                }
            },
        }
    }
}

impl<R: ValueEq, V: ValueEq> vstd::std_specs::cmp::PartialEqSpecImpl for Referenceable<R, V> {
    open spec fn obeys_eq_spec() -> bool {
        true
    }

    open spec fn eq_spec(&self, other: &Self) -> bool {
        self.compare_spec(*other)
    }
}

} // verus!
