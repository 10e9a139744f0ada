use vstd::prelude::*;

use crate::error::RecsError;

verus! {

/// A lightweight entity handle: a reusable slot index and the generation that
/// tells apart successive uses of that slot.
#[derive(Debug, Clone, Copy, PartialEq, Eq, Hash, Structural)]
pub struct Entity(pub u32, pub u32);

impl Entity {
    pub open spec fn spec_id(self) -> u32 {
        self.0
    }

    pub open spec fn spec_generation(self) -> u32 {
        self.1
    }

    /// Builds the handle with the given slot index and generation.
    pub fn new(id: u32, generation: u32) -> (r: Self)
        ensures
            r.spec_id() == id,
            r.spec_generation() == generation,
    {
        Entity(id, generation)
    }

    /// The slot index of this entity.
    pub fn id(&self) -> (r: u32)
        ensures
            r == self.spec_id(),
    {
        self.0
    }

    /// The generation of this entity.
    pub fn generation(&self) -> (r: u32)
        ensures
            r == self.spec_generation(),
    {
        self.1
    }
}

/// Issues, recycles and validates entity handles.
///
/// `generations[i]` is the live generation of slot `i`; `free_list` holds the
/// slots that were released, reused last-in first-out.
pub struct EntityManager {
    generations: Vec<u32>,
    free_list: Vec<usize>,
}

impl EntityManager {
    /// The live generation of each slot ever allocated.
    pub closed spec fn generations(&self) -> Seq<u32> {
        self.generations@
    }

    /// The released slots, the next one to be reused last.
    pub closed spec fn free_list(&self) -> Seq<usize> {
        self.free_list@
    }

    /// Every generation is at least one, and the free list holds slots below
    /// the high-water mark.
    pub open spec fn wf(&self) -> bool {
        &&& forall|i: int| 0 <= i < self.generations().len() ==> self.generations()[i] >= 1
        &&& forall|k: int|
            0 <= k < self.free_list().len() ==> #[trigger] self.free_list()[k]
                < self.generations().len()
        &&& self.generations().len() <= u32::MAX as nat + 1
    }

    /// `e` names the live use of its slot.
    pub open spec fn spec_is_valid(&self, e: Entity) -> bool {
        &&& (e.spec_id() as int) < self.generations().len()
        &&& self.generations()[e.spec_id() as int] == e.spec_generation()
    }

    /// A new entity can be issued without its index leaving `u32`.
    pub open spec fn can_create(&self) -> bool {
        self.free_list().len() > 0 || self.generations().len() <= u32::MAX as nat
    }

    /// The entity that `create_entity` issues next.
    pub open spec fn next_entity(&self) -> Entity {
        if self.free_list().len() > 0 {
            let i = self.free_list().last();
            Entity(i as u32, self.generations()[i as int])
        } else {
            Entity(self.generations().len() as u32, 1)
        }
    }

    pub fn new() -> (r: Self)
        ensures
            r.wf(),
            r.generations() == Seq::<u32>::empty(),
            r.free_list() == Seq::<usize>::empty(),
    {
        EntityManager { generations: Vec::new(), free_list: Vec::new() }
    }

    /// Issues an entity: the most recently released slot with its current
    /// generation, or else a fresh slot with generation 1.
    pub fn create_entity(&mut self) -> (r: Entity)
        requires
            old(self).wf(),
            old(self).can_create(),
        ensures
            final(self).wf(),
            r == old(self).next_entity(),
            final(self).spec_is_valid(r),
            old(self).free_list().len() > 0 ==> {
                &&& final(self).generations() == old(self).generations()
                &&& final(self).free_list() == old(self).free_list().drop_last()
            },
            old(self).free_list().len() == 0 ==> {
                &&& final(self).generations() == old(self).generations().push(1)
                &&& final(self).free_list() == old(self).free_list()
            },
    {
        match self.free_list.pop() {
            Some(index) => {
                let generation = self.generations[index];
                Entity(index as u32, generation)
            },
            None => {
                let index = self.generations.len();
                self.generations.push(1);
                Entity(index as u32, 1)
            },
        }
    }

    /// Invalidates `entity` by bumping its slot's generation and releases the
    /// slot for reuse. Fails, changing nothing, when `entity` is not valid.
    pub fn destroy_entity(&mut self, entity: Entity) -> (r: Result<(), RecsError>)
        requires
            old(self).wf(),
            old(self).spec_is_valid(entity) ==> entity.spec_generation() < u32::MAX,
        ensures
            final(self).wf(),
            r is Ok <==> old(self).spec_is_valid(entity),
            r is Err ==> r == Err::<(), RecsError>(RecsError::InvalidEntity(entity)) && *final(self)
                == *old(self),
            r is Ok ==> {
                &&& final(self).generations() == old(self).generations().update(
                    entity.spec_id() as int,
                    (entity.spec_generation() + 1) as u32,
                )
                &&& final(self).free_list() == old(self).free_list().push(
                    entity.spec_id() as usize,
                )
            },
    {
        if !self.is_valid(entity) {
            return Err(RecsError::InvalidEntity(entity));
        }
        let index = entity.id() as usize;
        self.generations.set(index, entity.generation() + 1);
        self.free_list.push(index);
        proof {
            assert forall|k: int| 0 <= k < self.free_list().len() implies #[trigger] self.free_list()[k]
                < self.generations().len() by {
                if k < old(self).free_list().len() {
                    assert(self.free_list()[k] == old(self).free_list()[k]);
                }
            }
        }
        Ok(())
    }

    /// Whether `entity` names the live use of its slot.
    pub fn is_valid(&self, entity: Entity) -> (r: bool)
        ensures
            r == self.spec_is_valid(entity),
    {
        let index = entity.0 as usize;
        index < self.generations.len() && self.generations[index] == entity.1
    }
}

/// Destroying a valid entity leaves it invalid, and the next entity issued
/// reuses its slot with a strictly greater generation.
pub proof fn lemma_destroy_then_reuse(before: EntityManager, after: EntityManager, e: Entity)
    requires
        before.wf(),
        before.spec_is_valid(e),
        e.spec_generation() < u32::MAX,
        after.generations() == before.generations().update(
            e.spec_id() as int,
            (e.spec_generation() + 1) as u32,
        ),
        after.free_list() == before.free_list().push(e.spec_id() as usize),
    ensures
        !after.spec_is_valid(e),
        after.next_entity().spec_id() == e.spec_id(),
        after.next_entity().spec_generation() > e.spec_generation(),
{
}

} // verus!
