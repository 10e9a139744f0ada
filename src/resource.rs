use vstd::prelude::*;

use crate::error::RecsError;
use crate::registry::Registry;

verus! {

/// A singleton value held by a registry whose stored values are of type `V`,
/// keyed by a stable per-type number (the same scheme as components; the
/// resource keys form a space of their own). Keys index a vector of slots, so
/// they are meant to be small dense integers: key `k` makes room for `k + 1`
/// slots.
pub trait Resource<V>: Sized {
    /// The stable key of this resource type.
    spec fn spec_type_key() -> usize;

    /// The resource of this type that `v` holds, if any.
    spec fn spec_from_value(v: V) -> Option<Self>;

    /// The stable key of this resource type.
    fn type_key() -> (k: usize)
        ensures
            k == Self::spec_type_key(),
    ;

    /// Erases the resource into a stored value.
    fn into_value(self) -> (v: V)
        ensures
            Self::spec_from_value(v) == Some(self),
    ;

    /// The resource of this type that `v` holds, if any.
    fn from_value(v: &V) -> (r: Option<&Self>)
        ensures
            r is Some <==> Self::spec_from_value(*v) is Some,
            r is Some ==> *r.unwrap() == Self::spec_from_value(*v).unwrap(),
    ;

    /// Mutable access to the resource of this type that `v` holds, if any.
    fn from_value_mut(v: &mut V) -> (r: Option<&mut Self>)
        ensures
            r is Some <==> Self::spec_from_value(*old(v)) is Some,
            r is None ==> *final(v) == *old(v),
            r is Some ==> {
                &&& *r.unwrap() == Self::spec_from_value(*old(v)).unwrap()
                &&& Self::spec_from_value(*final(v)) == Some(*final(r.unwrap()))
            },
    ;

    /// Takes the resource of this type out of `v`, if it holds one.
    fn from_value_owned(v: V) -> (r: Option<Self>)
        ensures
            r == Self::spec_from_value(v),
    ;
}

/// The number of occupied entries of `s`.
pub open spec fn count_present<V>(s: Seq<Option<V>>) -> nat
    decreases s.len(),
{
    if s.len() == 0 {
        0
    } else {
        count_present(s.drop_last()) + if s.last() is Some {
            1nat
        } else {
            0nat
        }
    }
}

/// Replacing one entry changes the count by what the two entries differ in.
pub proof fn lemma_count_update<V>(s: Seq<Option<V>>, i: int, x: Option<V>)
    requires
        0 <= i < s.len(),
    ensures
        count_present(s.update(i, x)) + (if s[i] is Some {
            1nat
        } else {
            0nat
        }) == count_present(s) + (if x is Some {
            1nat
        } else {
            0nat
        }),
    decreases s.len(),
{
    let t = s.update(i, x);
    if i == s.len() - 1 {
        assert(t.drop_last() =~= s.drop_last());
    } else {
        assert(t.drop_last() =~= s.drop_last().update(i, x));
        lemma_count_update(s.drop_last(), i, x);
    }
}

/// The count never exceeds the length.
pub proof fn lemma_count_bound<V>(s: Seq<Option<V>>)
    ensures
        count_present(s) <= s.len(),
    decreases s.len(),
{
    if s.len() > 0 {
        lemma_count_bound(s.drop_last());
    }
}

/// Singleton storage: at most one value per resource type.
pub struct ResourceStorage<V> {
    slots: Vec<Option<V>>,
    count: usize,
}

impl<V> ResourceStorage<V> {
    /// The entry of each resource key.
    pub closed spec fn spec_slots(&self) -> Seq<Option<V>> {
        self.slots@
    }

    pub closed spec fn spec_count(&self) -> nat {
        self.count as nat
    }

    pub open spec fn wf(&self) -> bool {
        self.spec_count() == count_present(self.spec_slots())
    }

    /// The value stored under resource key `key`, if any.
    pub open spec fn value_at(&self, key: int) -> Option<V> {
        if 0 <= key < self.spec_slots().len() {
            self.spec_slots()[key]
        } else {
            None
        }
    }

    /// The resource of type `R` that is stored, if any.
    pub open spec fn resource_of<R: Resource<V>>(&self) -> Option<R> {
        match self.value_at(R::spec_type_key() as int) {
            Some(v) => R::spec_from_value(v),
            None => None,
        }
    }

    /// The number of stored resources.
    pub open spec fn spec_len(&self) -> nat {
        count_present(self.spec_slots())
    }

    /// Creates an empty storage.
    pub fn new() -> (r: Self)
        ensures
            r.wf(),
            forall|k: int| r.value_at(k) is None,
            r.spec_len() == 0,
    {
        ResourceStorage { slots: Vec::new(), count: 0 }
    }

    /// Stores `resource`, replacing any resource of the same type.
    pub fn insert<R: Resource<V>>(&mut self, resource: R)
        requires
            old(self).wf(),
        ensures
            final(self).wf(),
            final(self).resource_of::<R>() == Some(resource),
            final(self).value_at(R::spec_type_key() as int) is Some,
            forall|k: int|
                k != R::spec_type_key() ==> #[trigger] final(self).value_at(k) == old(self).value_at(
                    k,
                ),
            final(self).spec_len() == old(self).spec_len() + if old(self).value_at(
                R::spec_type_key() as int,
            ) is Some {
                0nat
            } else {
                1nat
            },
    {
        let key = R::type_key();
        let value = R::into_value(resource);
        let ghost old_slots = self.slots@;
        while self.slots.len() <= key
            invariant
                self.count == old(self).count,
                old_slots == old(self).slots@,
                self.slots@.len() >= old_slots.len(),
                count_present(self.slots@) == count_present(old_slots),
                forall|k: int| 0 <= k < old_slots.len() ==> self.slots@[k] == old_slots[k],
                forall|k: int| old_slots.len() <= k < self.slots@.len() ==> self.slots@[k] is None,
            decreases key + 1 - self.slots.len(),
        {
            let ghost before = self.slots@;
            self.slots.push(None);
            assert(self.slots@.drop_last() =~= before);
        }
        let present = self.slots[key].is_some();
        proof {
            lemma_count_update(self.slots@, key as int, Some(value));
            lemma_count_bound(self.slots@);
        }
        self.slots.set(key, Some(value));
        if !present {
            proof {
                lemma_count_bound(self.slots@);
            }
            self.count = self.count + 1;
        }
    }

    /// The stored resource of type `R`, if any.
    pub fn get<R: Resource<V>>(&self) -> (r: Option<&R>)
        ensures
            r is Some <==> self.resource_of::<R>() is Some,
            r is Some ==> *r.unwrap() == self.resource_of::<R>().unwrap(),
    {
        let key = R::type_key();
        if key >= self.slots.len() {
            return None;
        }
        match &self.slots[key] {
            Some(v) => R::from_value(v),
            None => None,
        }
    }

    /// Mutable access to the stored resource of type `R`, if any.
    pub fn get_mut<R: Resource<V>>(&mut self) -> (r: Option<&mut R>)
        requires
            old(self).wf(),
        ensures
            r is Some <==> old(self).resource_of::<R>() is Some,
            final(self).wf(),
            r is None ==> final(self).spec_slots() == old(self).spec_slots(),
            r is Some ==> {
                &&& *r.unwrap() == old(self).resource_of::<R>().unwrap()
                &&& final(self).resource_of::<R>() == Some(*final(r.unwrap()))
                &&& final(self).value_at(R::spec_type_key() as int) is Some
                &&& forall|k: int|
                    k != R::spec_type_key() ==> #[trigger] final(self).value_at(k)
                        == old(self).value_at(k)
            },
    {
        let key = R::type_key();
        if key >= self.slots.len() {
            return None;
        }
        if self.slots[key].is_none() {
            return None;
        }
        proof {
            assert forall|x: V| #[trigger]
                count_present(self.slots@.update(key as int, Some(x))) == count_present(
                    self.slots@,
                ) by {
                lemma_count_update(self.slots@, key as int, Some(x));
            }
            assert(self.slots@.update(key as int, self.slots@[key as int]) =~= self.slots@);
        }
        let slot = &mut self.slots[key];
        match slot {
            Some(v) => R::from_value_mut(v),
            None => None,
        }
    }

    /// Takes out the stored resource of type `R`, if any; a value of another
    /// type under the same key stays in place.
    pub fn remove<R: Resource<V>>(&mut self) -> (r: Option<R>)
        requires
            old(self).wf(),
        ensures
            final(self).wf(),
            r == old(self).resource_of::<R>(),
            r is None ==> final(self).spec_slots() == old(self).spec_slots(),
            r is Some ==> final(self).value_at(R::spec_type_key() as int) is None,
            forall|k: int|
                k != R::spec_type_key() ==> #[trigger] final(self).value_at(k) == old(self).value_at(k),
            final(self).spec_len() + (if r is Some {
                1nat
            } else {
                0nat
            }) == old(self).spec_len(),
    {
        let key = R::type_key();
        if key >= self.slots.len() {
            return None;
        }
        let holds_r = match &self.slots[key] {
            Some(v) => R::from_value(v).is_some(),
            None => false,
        };
        if !holds_r {
            return None;
        }
        proof {
            lemma_count_update(self.slots@, key as int, None);
        }
        let mut taken: Option<V> = None;
        std::mem::swap(&mut taken, &mut self.slots[key]);
        self.count = self.count - 1;
        match taken {
            Some(v) => R::from_value_owned(v),
            None => None,
        }
    }

    /// Whether anything is stored under the key of `R`.
    pub fn contains<R: Resource<V>>(&self) -> (r: bool)
        ensures
            r == self.value_at(R::spec_type_key() as int) is Some,
    {
        self.contains_key(R::type_key())
    }

    /// Whether anything is stored under resource key `key`.
    pub fn contains_key(&self, key: usize) -> (r: bool)
        ensures
            r == self.value_at(key as int) is Some,
    {
        key < self.slots.len() && self.slots[key].is_some()
    }

    /// The number of stored resources.
    pub fn len(&self) -> (r: usize)
        requires
            self.wf(),
        ensures
            r == self.spec_len(),
    {
        self.count
    }

    /// Whether no resource is stored.
    pub fn is_empty(&self) -> (r: bool)
        requires
            self.wf(),
        ensures
            r == (self.spec_len() == 0),
    {
        self.count == 0
    }

    /// Drops every stored resource.
    pub fn clear(&mut self)
        ensures
            final(self).wf(),
            forall|k: int| final(self).value_at(k) is None,
            final(self).spec_len() == 0,
    {
        self.slots = Vec::new();
        self.count = 0;
    }
}

/// Read-only access to a resource, handed to a system.
pub struct Res<'a, R> {
    resource: &'a R,
}

impl<'a, R> Res<'a, R> {
    pub closed spec fn view_value(&self) -> R {
        *self.resource
    }

    pub fn new(resource: &'a R) -> (r: Self)
        ensures
            r.view_value() == *resource,
    {
        Res { resource }
    }

    /// Fetches the mandatory resource `R` for a system; fails with
    /// `MissingResource` naming its key when it is not stored.
    pub fn from_registry<V>(registry: &'a Registry<V>) -> (r: Result<Self, RecsError>) where
        R: Resource<V>,
        ensures
            r is Ok <==> registry.resource_storage().resource_of::<R>() is Some,
            r is Ok ==> r.unwrap().view_value() == registry.resource_storage().resource_of::<
                R,
            >().unwrap(),
            r is Err ==> r == Err::<Self, RecsError>(RecsError::MissingResource(R::spec_type_key())),
    {
        match registry.get_resource::<R>() {
            Some(resource) => Ok(Res { resource }),
            None => Err(RecsError::MissingResource(R::type_key())),
        }
    }

    /// The resource.
    pub fn get(&self) -> (r: &R)
        ensures
            *r == self.view_value(),
    {
        self.resource
    }
}

impl<'a, R> std::ops::Deref for Res<'a, R> {
    type Target = R;

    fn deref(&self) -> &R {
        self.resource
    }
}

/// Mutable access to a resource, handed to a system.
pub struct ResMut<'a, R> {
    resource: &'a mut R,
}

impl<'a, R> ResMut<'a, R> {
    pub closed spec fn view_value(&self) -> R {
        *self.resource
    }

    pub fn new(resource: &'a mut R) -> (r: Self)
        ensures
            r.view_value() == *old(resource),
    {
        ResMut { resource }
    }

    /// Fetches the mandatory resource `R` for update by a system; fails with
    /// `MissingResource` naming its key when it is not stored.
    pub fn from_registry<V>(registry: &'a mut Registry<V>) -> (r: Result<Self, RecsError>) where
        R: Resource<V>,
        requires
            old(registry).wf(),
        ensures
            r is Ok <==> old(registry).resource_storage().resource_of::<R>() is Some,
            r is Ok ==> r.unwrap().view_value() == old(registry).resource_storage().resource_of::<
                R,
            >().unwrap(),
            r is Err ==> r == Err::<Self, RecsError>(RecsError::MissingResource(R::spec_type_key())),
    {
        match registry.get_resource_mut::<R>() {
            Some(resource) => Ok(ResMut { resource }),
            None => Err(RecsError::MissingResource(R::type_key())),
        }
    }

    /// The resource.
    pub fn get(&self) -> (r: &R)
        ensures
            *r == self.view_value(),
    {
        self.resource
    }

    /// The resource, for update.
    pub fn get_mut(&mut self) -> (r: &mut R)
        ensures
            *r == old(self).view_value(),
            final(self).view_value() == *final(r),
    {
        self.resource
    }
}

impl<'a, R> std::ops::Deref for ResMut<'a, R> {
    type Target = R;

    fn deref(&self) -> &R {
        self.resource
    }
}

/// Read-only access to a resource that may be absent, handed to a system.
pub struct OptionalRes<'a, R> {
    resource: Option<&'a R>,
}

impl<'a, R> OptionalRes<'a, R> {
    pub closed spec fn view_value(&self) -> Option<&'a R> {
        self.resource
    }

    pub fn new(resource: Option<&'a R>) -> (r: Self)
        ensures
            r.view_value() == resource,
    {
        OptionalRes { resource }
    }

    /// Fetches the optional resource `R` for a system; absent when it is not
    /// stored.
    pub fn from_registry<V>(registry: &'a Registry<V>) -> (r: Self) where R: Resource<V>,
        ensures
            r.view_value() is Some <==> registry.resource_storage().resource_of::<R>() is Some,
            r.view_value() is Some ==> *r.view_value().unwrap() == registry.resource_storage().resource_of::<
                R,
            >().unwrap(),
    {
        OptionalRes { resource: registry.get_resource::<R>() }
    }

    /// Whether the resource is present.
    pub fn is_some(&self) -> (r: bool)
        ensures
            r == self.view_value() is Some,
    {
        self.resource.is_some()
    }

    /// Whether the resource is absent.
    pub fn is_none(&self) -> (r: bool)
        ensures
            r == self.view_value() is None,
    {
        self.resource.is_none()
    }

    /// The resource, if present.
    pub fn as_ref(&self) -> (r: Option<&'a R>)
        ensures
            r == self.view_value(),
    {
        self.resource
    }
}

impl<'a, R> std::ops::Deref for OptionalRes<'a, R> {
    type Target = Option<&'a R>;

    fn deref(&self) -> &Option<&'a R> {
        &self.resource
    }
}

/// Mutable access to a resource that may be absent, handed to a system.
pub struct OptionalResMut<'a, R> {
    resource: Option<&'a mut R>,
}

impl<'a, R> OptionalResMut<'a, R> {
    pub closed spec fn is_present(&self) -> bool {
        self.resource is Some
    }

    /// The current value of the resource, if present.
    pub closed spec fn view_value(&self) -> Option<R> {
        match self.resource {
            Some(r) => Some(*r),
            None => None,
        }
    }

    pub fn new(resource: Option<&'a mut R>) -> (r: Self)
        ensures
            r.is_present() == resource is Some,
            r.view_value() == match resource {
                Some(x) => Some(*x),
                None => None::<R>,
            },
    {
        OptionalResMut { resource }
    }

    /// Fetches the optional resource `R` for update by a system; absent when
    /// it is not stored.
    pub fn from_registry<V>(registry: &'a mut Registry<V>) -> (r: Self) where R: Resource<V>,
        requires
            old(registry).wf(),
        ensures
            r.is_present() <==> old(registry).resource_storage().resource_of::<R>() is Some,
            r.view_value() == old(registry).resource_storage().resource_of::<R>(),
    {
        OptionalResMut { resource: registry.get_resource_mut::<R>() }
    }

    /// Whether the resource is present.
    pub fn is_some(&self) -> (r: bool)
        ensures
            r == self.is_present(),
    {
        self.resource.is_some()
    }

    /// Whether the resource is absent.
    pub fn is_none(&self) -> (r: bool)
        ensures
            r == !self.is_present(),
    {
        self.resource.is_none()
    }

    /// The resource, if present, for update.
    pub fn as_mut(&mut self) -> (r: Option<&mut R>)
        ensures
            r is Some == old(self).is_present(),
            r is Some ==> *r.unwrap() == old(self).view_value().unwrap()
                && final(self).view_value() == Some(*final(r.unwrap())),
            r is None ==> final(self).view_value() == old(self).view_value(),
    {
        match &mut self.resource {
            Some(r) => Some(&mut **r),
            None => None,
        }
    }
}

} // verus!
