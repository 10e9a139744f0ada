use vstd::prelude::*;

use crate::entity::Entity;

verus! {

/// Dense storage of one component type, keyed by entity slot index.
///
/// `dense` packs the values with no gaps, `entities` records the owner of
/// each packed slot, and `sparse[i]` is the packed slot of the value owned by
/// slot index `i`, if any.
#[derive(Debug)]
pub struct SparseSet<C> {
    dense: Vec<C>,
    entities: Vec<Entity>,
    sparse: Vec<Option<usize>>,
}

/// `s` grown with empty entries to at least `n` entries.
pub open spec fn grown(s: Seq<Option<usize>>, n: nat) -> Seq<Option<usize>> {
    if s.len() >= n {
        s
    } else {
        s + Seq::new((n - s.len()) as nat, |k: int| None::<usize>)
    }
}

impl<C> SparseSet<C> {
    /// The packed values.
    pub closed spec fn spec_dense(&self) -> Seq<C> {
        self.dense@
    }

    /// The owner of each packed value.
    pub closed spec fn spec_entities(&self) -> Seq<Entity> {
        self.entities@
    }

    /// The packed slot of each slot index.
    pub closed spec fn spec_sparse(&self) -> Seq<Option<usize>> {
        self.sparse@
    }

    /// The three arrays agree: each occupied sparse entry points to a packed
    /// slot owned by that index, and each packed slot is pointed to by its
    /// owner's sparse entry.
    pub open spec fn wf(&self) -> bool {
        &&& self.spec_dense().len() == self.spec_entities().len()
        &&& forall|i: int|
            0 <= i < self.spec_sparse().len() && (#[trigger] self.spec_sparse()[i]) is Some ==> {
                &&& self.spec_sparse()[i].unwrap() < self.spec_dense().len()
                &&& self.spec_entities()[self.spec_sparse()[i].unwrap() as int].spec_id() == i
            }
        &&& forall|j: int|
            0 <= j < self.spec_entities().len() ==> {
                &&& (#[trigger] self.spec_entities()[j]).spec_id() < self.spec_sparse().len()
                &&& self.spec_sparse()[self.spec_entities()[j].spec_id() as int] == Some(
                    j as usize,
                )
            }
    }

    /// Slot index `id` owns a value here.
    pub open spec fn contains(&self, id: int) -> bool {
        0 <= id < self.spec_sparse().len() && self.spec_sparse()[id] is Some
    }

    /// The packed slot of the value owned by `id`.
    pub open spec fn slot(&self, id: int) -> int {
        self.spec_sparse()[id].unwrap() as int
    }

    /// The value owned by slot index `id`, if any.
    pub open spec fn spec_get(&self, id: int) -> Option<C> {
        if self.contains(id) {
            Some(self.spec_dense()[self.slot(id)])
        } else {
            None
        }
    }

    /// The number of stored values.
    pub open spec fn spec_len(&self) -> nat {
        self.spec_dense().len()
    }

    /// Creates an empty set.
    pub fn new() -> (r: Self)
        ensures
            r.wf(),
            r.spec_dense() == Seq::<C>::empty(),
            r.spec_entities() == Seq::<Entity>::empty(),
            r.spec_sparse() == Seq::<Option<usize>>::empty(),
    {
        SparseSet { dense: Vec::new(), entities: Vec::new(), sparse: Vec::new() }
    }

    /// Stores `component` for `entity`: overwrites the value in place when the
    /// entity's index already owns one, else appends it to the packed arrays.
    pub fn insert(&mut self, entity: Entity, component: C)
        requires
            old(self).wf(),
        ensures
            final(self).wf(),
            forall|k: int| #[trigger]
                final(self).spec_get(k) == if k == entity.spec_id() {
                    Some(component)
                } else {
                    old(self).spec_get(k)
                },
            old(self).contains(entity.spec_id() as int) ==> {
                let j = old(self).slot(entity.spec_id() as int);
                &&& final(self).spec_dense() == old(self).spec_dense().update(j, component)
                &&& final(self).spec_entities() == old(self).spec_entities().update(j, entity)
                &&& final(self).spec_sparse() == old(self).spec_sparse()
            },
            !old(self).contains(entity.spec_id() as int) ==> {
                &&& final(self).spec_dense() == old(self).spec_dense().push(component)
                &&& final(self).spec_entities() == old(self).spec_entities().push(entity)
                &&& final(self).spec_sparse() == grown(
                    old(self).spec_sparse(),
                    entity.spec_id() as nat + 1,
                ).update(entity.spec_id() as int, Some(old(self).spec_dense().len() as usize))
            },
    {
        let id = entity.id() as usize;
        if id < self.sparse.len() {
            if let Some(dense_index) = self.sparse[id] {
                self.dense.set(dense_index, component);
                self.entities.set(dense_index, entity);
                return;
            }
        }
        let ghost old_sparse = self.sparse@;
        while self.sparse.len() <= id
            invariant
                self.dense@ == old(self).dense@,
                self.entities@ == old(self).entities@,
                old_sparse == old(self).sparse@,
                self.sparse@.len() >= old_sparse.len(),
                self.sparse@ == old_sparse + Seq::new(
                    (self.sparse@.len() - old_sparse.len()) as nat,
                    |k: int| None::<usize>,
                ),
                self.sparse@.len() <= id + 1 || self.sparse@ == old_sparse,
            decreases id + 1 - self.sparse.len(),
        {
            self.sparse.push(None);
            assert(self.sparse@ =~= old_sparse + Seq::new(
                (self.sparse@.len() - old_sparse.len()) as nat,
                |k: int| None::<usize>,
            ));
        }
        assert(self.sparse@ =~= grown(old_sparse, id as nat + 1));
        let new_index = self.dense.len();
        self.dense.push(component);
        self.entities.push(entity);
        self.sparse.set(id, Some(new_index));
        proof {
            assert forall|j: int| 0 <= j < self.entities@.len() implies {
                &&& (#[trigger] self.entities@[j]).spec_id() < self.sparse@.len()
                &&& self.sparse@[self.entities@[j].spec_id() as int] == Some(j as usize)
            } by {
                if j < old(self).entities@.len() {
                    assert(old(self).spec_entities()[j] == self.entities@[j]);
                }
            }
            assert forall|k: int| #[trigger]
                self.spec_get(k) == if k == entity.spec_id() {
                    Some(component)
                } else {
                    old(self).spec_get(k)
                } by {
                if k != id && 0 <= k < self.sparse@.len() && k >= old_sparse.len() {
                    assert(self.sparse@[k] is None);
                }
                if k != id && 0 <= k < old_sparse.len() {
                    assert(self.sparse@[k] == old(self).spec_sparse()[k]);
                }
            }
        }
    }

    /// Removes and returns the value owned by slot index `id`. A value that
    /// was not packed last is replaced by the former last value, whose owner's
    /// sparse entry is repointed; the packed arrays shrink by one.
    pub fn remove(&mut self, id: usize) -> (r: Option<C>)
        requires
            old(self).wf(),
        ensures
            final(self).wf(),
            r == old(self).spec_get(id as int),
            forall|k: int| #[trigger]
                final(self).spec_get(k) == if k == id {
                    None
                } else {
                    old(self).spec_get(k)
                },
            !old(self).contains(id as int) ==> *final(self) == *old(self),
            old(self).contains(id as int) ==> {
                let j = old(self).slot(id as int);
                let last = old(self).spec_dense().len() - 1;
                let moved = old(self).spec_entities()[last];
                &&& final(self).spec_dense() == old(self).spec_dense().update(
                    j,
                    old(self).spec_dense()[last],
                ).drop_last()
                &&& final(self).spec_entities() == old(self).spec_entities().update(
                    j,
                    moved,
                ).drop_last()
                &&& j != last ==> final(self).spec_sparse() == old(self).spec_sparse().update(
                    moved.spec_id() as int,
                    Some(j as usize),
                ).update(id as int, None)
                &&& j == last ==> final(self).spec_sparse() == old(self).spec_sparse().update(
                    id as int,
                    None,
                )
            },
    {
        if id >= self.sparse.len() {
            return None;
        }
        let dense_index = match self.sparse[id] {
            Some(j) => j,
            None => {
                return None;
            },
        };
        let ghost last = self.dense@.len() - 1;
        let ghost moved = self.entities@[last];
        let removed = self.dense.swap_remove(dense_index);
        self.entities.swap_remove(dense_index);
        if dense_index < self.entities.len() {
            let moved_id = self.entities[dense_index].id() as usize;
            self.sparse.set(moved_id, Some(dense_index));
        }
        self.sparse.set(id, None);
        proof {
            assert forall|j: int| 0 <= j < self.entities@.len() implies {
                &&& (#[trigger] self.entities@[j]).spec_id() < self.sparse@.len()
                &&& self.sparse@[self.entities@[j].spec_id() as int] == Some(j as usize)
            } by {
                assert(old(self).spec_entities()[j] == old(self).entities@[j]);
                if j != dense_index {
                    assert(self.entities@[j] == old(self).spec_entities()[j]);
                } else {
                    assert(self.entities@[j] == old(self).spec_entities()[last]);
                }
            }
            assert forall|i: int|
                0 <= i < self.sparse@.len() && (#[trigger] self.sparse@[i]) is Some implies {
                &&& self.sparse@[i].unwrap() < self.dense@.len()
                &&& self.entities@[self.sparse@[i].unwrap() as int].spec_id() == i
            } by {
                assert(old(self).spec_sparse()[i] == old(self).sparse@[i]);
                if i != id && i != moved.spec_id() {
                    assert(self.sparse@[i] == old(self).sparse@[i]);
                    let j = old(self).sparse@[i].unwrap() as int;
                    assert(old(self).spec_entities()[j] == old(self).entities@[j]);
                    assert(old(self).spec_entities()[last] == moved);
                }
            }
            assert forall|k: int| #[trigger]
                self.spec_get(k) == if k == id {
                    None
                } else {
                    old(self).spec_get(k)
                } by {
                if k != id && old(self).contains(k) {
                    assert(old(self).spec_sparse()[k] == old(self).sparse@[k]);
                    let j = old(self).sparse@[k].unwrap() as int;
                    assert(old(self).spec_entities()[j] == old(self).entities@[j]);
                    assert(old(self).spec_entities()[last] == moved);
                    if j == last {
                        assert(k == moved.spec_id());
                    }
                }
                if k != id && !old(self).contains(k) && 0 <= k < self.sparse@.len() {
                    assert(old(self).spec_sparse()[k] == old(self).sparse@[k]);
                    if k == moved.spec_id() {
                        assert(old(self).spec_entities()[last] == moved);
                    }
                }
            }
        }
        Some(removed)
    }

    /// The value owned by slot index `id`, if any.
    pub fn get(&self, id: usize) -> (r: Option<&C>)
        requires
            self.wf(),
        ensures
            r is Some <==> self.contains(id as int),
            r is Some ==> *r.unwrap() == self.spec_get(id as int).unwrap(),
    {
        if id >= self.sparse.len() {
            return None;
        }
        match self.sparse[id] {
            Some(index) => Some(&self.dense[index]),
            None => None,
        }
    }

    /// Mutable access to the value owned by slot index `id`, if any; the
    /// packed slot takes whatever value the reference holds at its end.
    pub fn get_mut(&mut self, id: usize) -> (r: Option<&mut C>)
        requires
            old(self).wf(),
        ensures
            r is Some <==> old(self).contains(id as int),
            r is None ==> *final(self) == *old(self),
            r is Some ==> {
                &&& *r.unwrap() == old(self).spec_get(id as int).unwrap()
                &&& final(self).spec_dense() == old(self).spec_dense().update(
                    old(self).slot(id as int),
                    *final(r.unwrap()),
                )
                &&& final(self).spec_entities() == old(self).spec_entities()
                &&& final(self).spec_sparse() == old(self).spec_sparse()
            },
    {
        if id >= self.sparse.len() {
            return None;
        }
        match self.sparse[id] {
            Some(index) => Some(&mut self.dense[index]),
            None => None,
        }
    }

    /// The packed values, in packed order.
    pub fn iter(&self) -> (r: &[C])
        ensures
            r@ == self.spec_dense(),
    {
        self.dense.as_slice()
    }

    /// The packed values, in packed order, for in-place update.
    pub fn iter_mut(&mut self) -> (r: &mut [C])
        ensures
            r@ == old(self).spec_dense(),
            final(r)@.len() == old(self).spec_dense().len() ==> {
                &&& final(self).spec_dense() == final(r)@
                &&& final(self).spec_entities() == old(self).spec_entities()
                &&& final(self).spec_sparse() == old(self).spec_sparse()
            },
    {
        self.dense.as_mut_slice()
    }

    /// The owners of the packed values, in packed order.
    pub fn entities(&self) -> (r: &[Entity])
        ensures
            r@ == self.spec_entities(),
    {
        self.entities.as_slice()
    }

    /// Each packed value with its owner, in packed order.
    pub fn iter_with_entities(&self) -> (r: Vec<(Entity, &C)>)
        requires
            self.wf(),
        ensures
            r@.len() == self.spec_dense().len(),
            forall|j: int|
                0 <= j < r@.len() ==> (#[trigger] r@[j]).0 == self.spec_entities()[j] && *r@[j].1
                    == self.spec_dense()[j],
    {
        let mut out: Vec<(Entity, &C)> = Vec::new();
        let mut j: usize = 0;
        while j < self.dense.len()
            invariant
                self.wf(),
                j <= self.dense@.len(),
                out@.len() == j,
                forall|k: int|
                    0 <= k < j ==> (#[trigger] out@[k]).0 == self.spec_entities()[k] && *out@[k].1
                        == self.spec_dense()[k],
            decreases self.dense@.len() - j,
        {
            out.push((self.entities[j], &self.dense[j]));
            j = j + 1;
        }
        out
    }

    /// The number of stored values.
    pub fn len(&self) -> (r: usize)
        ensures
            r == self.spec_len(),
    {
        self.dense.len()
    }

    /// Whether no value is stored.
    pub fn is_empty(&self) -> (r: bool)
        ensures
            r == (self.spec_len() == 0),
    {
        self.dense.len() == 0
    }
}

} // verus!
