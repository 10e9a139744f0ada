use vstd::prelude::*;

use crate::component::sparse_set::SparseSet;

pub mod sparse_set;

verus! {

/// A plain data record that can be attached to entities of a registry whose
/// stored values are of type `V`.
///
/// Stores are type-erased by holding every component as a `V`, and keyed by
/// a stable per-type number: `V` is typically an enum with one variant per
/// component type, and each component type converts itself into and out of
/// its variant. Distinct component types of one registry take distinct keys;
/// types that share a key share one store. Keys index a vector of stores, so
/// they are meant to be small dense integers (0, 1, 2, ...): key `k` makes
/// room for `k + 1` stores.
pub trait Component<V>: Sized {
    /// The stable key of this component type.
    spec fn spec_type_key() -> usize;

    /// The component of this type that `v` holds, if any.
    spec fn spec_from_value(v: V) -> Option<Self>;

    /// The stable key of this component type.
    fn type_key() -> (k: usize)
        ensures
            k == Self::spec_type_key(),
    ;

    /// Erases the component into a stored value.
    fn into_value(self) -> (v: V)
        ensures
            Self::spec_from_value(v) == Some(self),
    ;

    /// The component of this type that `v` holds, if any.
    fn from_value(v: &V) -> (r: Option<&Self>)
        ensures
            r is Some <==> Self::spec_from_value(*v) is Some,
            r is Some ==> *r.unwrap() == Self::spec_from_value(*v).unwrap(),
    ;

    /// Mutable access to the component of this type that `v` holds, if any.
    fn from_value_mut(v: &mut V) -> (r: Option<&mut Self>)
        ensures
            r is Some <==> Self::spec_from_value(*old(v)) is Some,
            r is None ==> *final(v) == *old(v),
            r is Some ==> {
                &&& *r.unwrap() == Self::spec_from_value(*old(v)).unwrap()
                &&& Self::spec_from_value(*final(v)) == Some(*final(r.unwrap()))
            },
    ;

    /// Takes the component of this type out of `v`, if it holds one.
    fn from_value_owned(v: V) -> (r: Option<Self>)
        ensures
            r == Self::spec_from_value(v),
    ;
}

/// The type-erased capability that the registry needs of a component store:
/// dropping whatever an entity slot owns.
pub trait ComponentStorage {
    spec fn storage_wf(&self) -> bool;

    /// Slot index `id` owns a value in this store.
    spec fn holds(&self, id: int) -> bool;

    /// Drops the value owned by slot index `id`; tells whether there was one.
    fn remove_by_id(&mut self, id: usize) -> (r: bool)
        requires
            old(self).storage_wf(),
        ensures
            final(self).storage_wf(),
            r == old(self).holds(id as int),
            !final(self).holds(id as int),
            forall|k: int| k != id ==> final(self).holds(k) == old(self).holds(k),
    ;
}

impl<C> ComponentStorage for SparseSet<C> {
    open spec fn storage_wf(&self) -> bool {
        self.wf()
    }

    open spec fn holds(&self, id: int) -> bool {
        self.contains(id)
    }

    fn remove_by_id(&mut self, id: usize) -> (r: bool) {
        let removed = self.remove(id);
        proof {
            assert forall|k: int| k != id implies self.contains(k) == old(self).contains(k) by {
                assert(self.spec_get(k) == old(self).spec_get(k));
            }
        }
        removed.is_some()
    }
}

} // verus!
