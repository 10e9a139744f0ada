use vstd::prelude::*;

use crate::component::sparse_set::SparseSet;
use crate::component::Component;
use crate::entity::{Entity, EntityManager};
use crate::error::RecsError;
use crate::query::Query;
use crate::resource::{Resource, ResourceStorage};

verus! {

/// Owns every entity, component store and resource, and exposes them as one
/// object; systems run over it from a `Schedule`.
///
/// Component stores are kept by component type key; a store is created on
/// first registration or insertion and kept for the registry's lifetime.
pub struct Registry<V> {
    entity_manager: EntityManager,
    components: Vec<Option<SparseSet<V>>>,
    resources: ResourceStorage<V>,
}

/// Each store is well formed and records live owners only.
pub open spec fn stores_wf<V>(m: EntityManager, stores: Seq<Option<SparseSet<V>>>) -> bool {
    &&& forall|k: int|
        0 <= k < stores.len() && (#[trigger] stores[k]) is Some ==> stores[k].unwrap().wf()
    &&& forall|k: int, j: int|
        0 <= k < stores.len() && stores[k] is Some && 0 <= j
            < stores[k].unwrap().spec_entities().len() ==> m.spec_is_valid(
            #[trigger] stores[k].unwrap().spec_entities()[j],
        )
}

/// The value that `stores[key]` holds for slot index `id`, if any.
pub open spec fn value_in_seq<V>(stores: Seq<Option<SparseSet<V>>>, key: int, id: int) -> Option<V> {
    if 0 <= key < stores.len() {
        match stores[key] {
            Some(s) => s.spec_get(id),
            None => None,
        }
    } else {
        None
    }
}

/// `b` differs from `a` at most in the packed value at slot `j`.
pub open spec fn same_but_value<V>(a: SparseSet<V>, b: SparseSet<V>, j: int) -> bool {
    &&& a.spec_entities() == b.spec_entities()
    &&& a.spec_sparse() == b.spec_sparse()
    &&& b.spec_dense() == a.spec_dense().update(j, b.spec_dense()[j])
}

/// What `SparseSet::remove` leaves: every owner left in `s1` was an owner in `s0`.
proof fn lemma_removal_keeps_owners<V>(s0: SparseSet<V>, s1: SparseSet<V>, id: int, j: int)
    requires
        s0.wf(),
        s1.wf(),
        0 <= j < s1.spec_entities().len(),
        !s0.contains(id) ==> s1 == s0,
        s0.contains(id) ==> s1.spec_entities() == s0.spec_entities().update(
            s0.slot(id),
            s0.spec_entities()[s0.spec_entities().len() - 1],
        ).drop_last(),
    ensures
        exists|j0: int|
            0 <= j0 < s0.spec_entities().len() && #[trigger] s0.spec_entities()[j0]
                == s1.spec_entities()[j],
{
    if s0.contains(id) {
        let last = s0.spec_entities().len() - 1;
        if j == s0.slot(id) {
            assert(s0.spec_entities()[last] == s1.spec_entities()[j]);
        } else {
            assert(s0.spec_entities()[j] == s1.spec_entities()[j]);
        }
    } else {
        assert(s0.spec_entities()[j] == s1.spec_entities()[j]);
    }
}

/// A fixed list of components attached together to one entity.
pub trait ComponentBundle<V>: Sized {
    /// Each component of the bundle is what `registry` holds for slot index
    /// `id`, the later one winning where two share a type.
    spec fn attached(self, registry: Registry<V>, id: int) -> bool;

    /// Attaches every component of the bundle to `entity`, in order. Fails,
    /// changing nothing, when `entity` is not valid.
    fn add_to_entity(self, registry: &mut Registry<V>, entity: Entity) -> (r: Result<(), RecsError>)
        requires
            old(registry).wf(),
        ensures
            final(registry).wf(),
            r is Ok <==> old(registry).spec_is_valid(entity),
            r is Err ==> r == Err::<(), RecsError>(RecsError::InvalidEntity(entity)),
            r is Err ==> final(registry).stores() == old(registry).stores(),
            final(registry).manager() == old(registry).manager(),
            final(registry).resource_storage() == old(registry).resource_storage(),
            r is Ok ==> self.attached(*final(registry), entity.spec_id() as int),
            forall|k: int, id: int|
                id != entity.spec_id() ==> #[trigger] final(registry).value_in(k, id) == old(registry).value_in(k, id),
    ;
}

impl<V, A: Component<V>> ComponentBundle<V> for (A,) {
    open spec fn attached(self, registry: Registry<V>, id: int) -> bool {
        registry.component_of::<A>(id) == Some(self.0)
    }

    fn add_to_entity(self, registry: &mut Registry<V>, entity: Entity) -> (r: Result<(), RecsError>) {
        registry.add_component(entity, self.0)
    }
}

impl<V, A: Component<V>, B: Component<V>> ComponentBundle<V> for (A, B) {
    open spec fn attached(self, registry: Registry<V>, id: int) -> bool {
        &&& registry.component_of::<B>(id) == Some(self.1)
        &&& A::spec_type_key() != B::spec_type_key() ==> registry.component_of::<A>(id) == Some(
            self.0,
        )
    }

    fn add_to_entity(self, registry: &mut Registry<V>, entity: Entity) -> (r: Result<(), RecsError>) {
        let (a, b) = self;
        match registry.add_component(entity, a) {
            Ok(()) => {},
            Err(e) => {
                return Err(e);
            },
        }
        registry.add_component(entity, b)
    }
}

impl<V, A: Component<V>, B: Component<V>, C: Component<V>> ComponentBundle<V> for (A, B, C) {
    open spec fn attached(self, registry: Registry<V>, id: int) -> bool {
        &&& registry.component_of::<C>(id) == Some(self.2)
        &&& B::spec_type_key() != C::spec_type_key() ==> registry.component_of::<B>(id) == Some(
            self.1,
        )
        &&& A::spec_type_key() != B::spec_type_key() && A::spec_type_key() != C::spec_type_key()
            ==> registry.component_of::<A>(id) == Some(self.0)
    }

    fn add_to_entity(self, registry: &mut Registry<V>, entity: Entity) -> (r: Result<(), RecsError>) {
        let (a, b, c) = self;
        match registry.add_component(entity, a) {
            Ok(()) => {},
            Err(e) => {
                return Err(e);
            },
        }
        match registry.add_component(entity, b) {
            Ok(()) => {},
            Err(e) => {
                return Err(e);
            },
        }
        registry.add_component(entity, c)
    }
}

impl<V, A: Component<V>, B: Component<V>, C: Component<V>, D: Component<V>> ComponentBundle<V> for (A, B, C, D) {
    open spec fn attached(self, registry: Registry<V>, id: int) -> bool {
        &&& registry.component_of::<D>(id) == Some(self.3)
        &&& C::spec_type_key() != D::spec_type_key() ==> registry.component_of::<C>(id) == Some(self.2)
        &&& B::spec_type_key() != C::spec_type_key() && B::spec_type_key() != D::spec_type_key() ==> registry.component_of::<B>(id) == Some(self.1)
        &&& A::spec_type_key() != B::spec_type_key() && A::spec_type_key() != C::spec_type_key() && A::spec_type_key() != D::spec_type_key() ==> registry.component_of::<A>(id) == Some(self.0)
    }

    fn add_to_entity(self, registry: &mut Registry<V>, entity: Entity) -> (r: Result<(), RecsError>) {
        let (a, b, c, d) = self;
        match registry.add_component(entity, a) {
            Ok(()) => {},
            Err(e) => {
                return Err(e);
            },
        }
        match registry.add_component(entity, b) {
            Ok(()) => {},
            Err(e) => {
                return Err(e);
            },
        }
        match registry.add_component(entity, c) {
            Ok(()) => {},
            Err(e) => {
                return Err(e);
            },
        }
        registry.add_component(entity, d)
    }
}

impl<V, A: Component<V>, B: Component<V>, C: Component<V>, D: Component<V>, E: Component<V>> ComponentBundle<V> for (A, B, C, D, E) {
    open spec fn attached(self, registry: Registry<V>, id: int) -> bool {
        &&& registry.component_of::<E>(id) == Some(self.4)
        &&& D::spec_type_key() != E::spec_type_key() ==> registry.component_of::<D>(id) == Some(self.3)
        &&& C::spec_type_key() != D::spec_type_key() && C::spec_type_key() != E::spec_type_key() ==> registry.component_of::<C>(id) == Some(self.2)
        &&& B::spec_type_key() != C::spec_type_key() && B::spec_type_key() != D::spec_type_key() && B::spec_type_key() != E::spec_type_key() ==> registry.component_of::<B>(id) == Some(self.1)
        &&& A::spec_type_key() != B::spec_type_key() && A::spec_type_key() != C::spec_type_key() && A::spec_type_key() != D::spec_type_key() && A::spec_type_key() != E::spec_type_key() ==> registry.component_of::<A>(id) == Some(self.0)
    }

    fn add_to_entity(self, registry: &mut Registry<V>, entity: Entity) -> (r: Result<(), RecsError>) {
        let (a, b, c, d, e) = self;
        match registry.add_component(entity, a) {
            Ok(()) => {},
            Err(e) => {
                return Err(e);
            },
        }
        match registry.add_component(entity, b) {
            Ok(()) => {},
            Err(e) => {
                return Err(e);
            },
        }
        match registry.add_component(entity, c) {
            Ok(()) => {},
            Err(e) => {
                return Err(e);
            },
        }
        match registry.add_component(entity, d) {
            Ok(()) => {},
            Err(e) => {
                return Err(e);
            },
        }
        registry.add_component(entity, e)
    }
}

impl<V, A: Component<V>, B: Component<V>, C: Component<V>, D: Component<V>, E: Component<V>, F: Component<V>> ComponentBundle<V> for (A, B, C, D, E, F) {
    open spec fn attached(self, registry: Registry<V>, id: int) -> bool {
        &&& registry.component_of::<F>(id) == Some(self.5)
        &&& E::spec_type_key() != F::spec_type_key() ==> registry.component_of::<E>(id) == Some(self.4)
        &&& D::spec_type_key() != E::spec_type_key() && D::spec_type_key() != F::spec_type_key() ==> registry.component_of::<D>(id) == Some(self.3)
        &&& C::spec_type_key() != D::spec_type_key() && C::spec_type_key() != E::spec_type_key() && C::spec_type_key() != F::spec_type_key() ==> registry.component_of::<C>(id) == Some(self.2)
        &&& B::spec_type_key() != C::spec_type_key() && B::spec_type_key() != D::spec_type_key() && B::spec_type_key() != E::spec_type_key() && B::spec_type_key() != F::spec_type_key() ==> registry.component_of::<B>(id) == Some(self.1)
        &&& A::spec_type_key() != B::spec_type_key() && A::spec_type_key() != C::spec_type_key() && A::spec_type_key() != D::spec_type_key() && A::spec_type_key() != E::spec_type_key() && A::spec_type_key() != F::spec_type_key() ==> registry.component_of::<A>(id) == Some(self.0)
    }

    fn add_to_entity(self, registry: &mut Registry<V>, entity: Entity) -> (r: Result<(), RecsError>) {
        let (a, b, c, d, e, f) = self;
        match registry.add_component(entity, a) {
            Ok(()) => {},
            Err(e) => {
                return Err(e);
            },
        }
        match registry.add_component(entity, b) {
            Ok(()) => {},
            Err(e) => {
                return Err(e);
            },
        }
        match registry.add_component(entity, c) {
            Ok(()) => {},
            Err(e) => {
                return Err(e);
            },
        }
        match registry.add_component(entity, d) {
            Ok(()) => {},
            Err(e) => {
                return Err(e);
            },
        }
        match registry.add_component(entity, e) {
            Ok(()) => {},
            Err(e) => {
                return Err(e);
            },
        }
        registry.add_component(entity, f)
    }
}

impl<V, A: Component<V>, B: Component<V>, C: Component<V>, D: Component<V>, E: Component<V>, F: Component<V>, G: Component<V>> ComponentBundle<V> for (A, B, C, D, E, F, G) {
    open spec fn attached(self, registry: Registry<V>, id: int) -> bool {
        &&& registry.component_of::<G>(id) == Some(self.6)
        &&& F::spec_type_key() != G::spec_type_key() ==> registry.component_of::<F>(id) == Some(self.5)
        &&& E::spec_type_key() != F::spec_type_key() && E::spec_type_key() != G::spec_type_key() ==> registry.component_of::<E>(id) == Some(self.4)
        &&& D::spec_type_key() != E::spec_type_key() && D::spec_type_key() != F::spec_type_key() && D::spec_type_key() != G::spec_type_key() ==> registry.component_of::<D>(id) == Some(self.3)
        &&& C::spec_type_key() != D::spec_type_key() && C::spec_type_key() != E::spec_type_key() && C::spec_type_key() != F::spec_type_key() && C::spec_type_key() != G::spec_type_key() ==> registry.component_of::<C>(id) == Some(self.2)
        &&& B::spec_type_key() != C::spec_type_key() && B::spec_type_key() != D::spec_type_key() && B::spec_type_key() != E::spec_type_key() && B::spec_type_key() != F::spec_type_key() && B::spec_type_key() != G::spec_type_key() ==> registry.component_of::<B>(id) == Some(self.1)
        &&& A::spec_type_key() != B::spec_type_key() && A::spec_type_key() != C::spec_type_key() && A::spec_type_key() != D::spec_type_key() && A::spec_type_key() != E::spec_type_key() && A::spec_type_key() != F::spec_type_key() && A::spec_type_key() != G::spec_type_key() ==> registry.component_of::<A>(id) == Some(self.0)
    }

    fn add_to_entity(self, registry: &mut Registry<V>, entity: Entity) -> (r: Result<(), RecsError>) {
        let (a, b, c, d, e, f, g) = self;
        match registry.add_component(entity, a) {
            Ok(()) => {},
            Err(e) => {
                return Err(e);
            },
        }
        match registry.add_component(entity, b) {
            Ok(()) => {},
            Err(e) => {
                return Err(e);
            },
        }
        match registry.add_component(entity, c) {
            Ok(()) => {},
            Err(e) => {
                return Err(e);
            },
        }
        match registry.add_component(entity, d) {
            Ok(()) => {},
            Err(e) => {
                return Err(e);
            },
        }
        match registry.add_component(entity, e) {
            Ok(()) => {},
            Err(e) => {
                return Err(e);
            },
        }
        match registry.add_component(entity, f) {
            Ok(()) => {},
            Err(e) => {
                return Err(e);
            },
        }
        registry.add_component(entity, g)
    }
}

impl<V, A: Component<V>, B: Component<V>, C: Component<V>, D: Component<V>, E: Component<V>, F: Component<V>, G: Component<V>, H: Component<V>> ComponentBundle<V> for (A, B, C, D, E, F, G, H) {
    open spec fn attached(self, registry: Registry<V>, id: int) -> bool {
        &&& registry.component_of::<H>(id) == Some(self.7)
        &&& G::spec_type_key() != H::spec_type_key() ==> registry.component_of::<G>(id) == Some(self.6)
        &&& F::spec_type_key() != G::spec_type_key() && F::spec_type_key() != H::spec_type_key() ==> registry.component_of::<F>(id) == Some(self.5)
        &&& E::spec_type_key() != F::spec_type_key() && E::spec_type_key() != G::spec_type_key() && E::spec_type_key() != H::spec_type_key() ==> registry.component_of::<E>(id) == Some(self.4)
        &&& D::spec_type_key() != E::spec_type_key() && D::spec_type_key() != F::spec_type_key() && D::spec_type_key() != G::spec_type_key() && D::spec_type_key() != H::spec_type_key() ==> registry.component_of::<D>(id) == Some(self.3)
        &&& C::spec_type_key() != D::spec_type_key() && C::spec_type_key() != E::spec_type_key() && C::spec_type_key() != F::spec_type_key() && C::spec_type_key() != G::spec_type_key() && C::spec_type_key() != H::spec_type_key() ==> registry.component_of::<C>(id) == Some(self.2)
        &&& B::spec_type_key() != C::spec_type_key() && B::spec_type_key() != D::spec_type_key() && B::spec_type_key() != E::spec_type_key() && B::spec_type_key() != F::spec_type_key() && B::spec_type_key() != G::spec_type_key() && B::spec_type_key() != H::spec_type_key() ==> registry.component_of::<B>(id) == Some(self.1)
        &&& A::spec_type_key() != B::spec_type_key() && A::spec_type_key() != C::spec_type_key() && A::spec_type_key() != D::spec_type_key() && A::spec_type_key() != E::spec_type_key() && A::spec_type_key() != F::spec_type_key() && A::spec_type_key() != G::spec_type_key() && A::spec_type_key() != H::spec_type_key() ==> registry.component_of::<A>(id) == Some(self.0)
    }

    fn add_to_entity(self, registry: &mut Registry<V>, entity: Entity) -> (r: Result<(), RecsError>) {
        let (a, b, c, d, e, f, g, h) = self;
        match registry.add_component(entity, a) {
            Ok(()) => {},
            Err(e) => {
                return Err(e);
            },
        }
        match registry.add_component(entity, b) {
            Ok(()) => {},
            Err(e) => {
                return Err(e);
            },
        }
        match registry.add_component(entity, c) {
            Ok(()) => {},
            Err(e) => {
                return Err(e);
            },
        }
        match registry.add_component(entity, d) {
            Ok(()) => {},
            Err(e) => {
                return Err(e);
            },
        }
        match registry.add_component(entity, e) {
            Ok(()) => {},
            Err(e) => {
                return Err(e);
            },
        }
        match registry.add_component(entity, f) {
            Ok(()) => {},
            Err(e) => {
                return Err(e);
            },
        }
        match registry.add_component(entity, g) {
            Ok(()) => {},
            Err(e) => {
                return Err(e);
            },
        }
        registry.add_component(entity, h)
    }
}

impl<V> Registry<V> {
    /// The entity manager's state.
    pub closed spec fn manager(&self) -> EntityManager {
        self.entity_manager
    }

    /// The store of each component type key, where one was created.
    pub closed spec fn stores(&self) -> Seq<Option<SparseSet<V>>> {
        self.components@
    }

    /// The resource storage's state.
    pub closed spec fn resource_storage(&self) -> ResourceStorage<V> {
        self.resources
    }

    /// The store of component type key `key`, if one was created.
    pub open spec fn store(&self, key: int) -> Option<SparseSet<V>> {
        if 0 <= key < self.stores().len() {
            self.stores()[key]
        } else {
            None
        }
    }

    /// The value that the store of key `key` holds for slot index `id`, if any.
    pub open spec fn value_in(&self, key: int, id: int) -> Option<V> {
        value_in_seq(self.stores(), key, id)
    }

    /// The component of type `C` held for slot index `id`, if any.
    pub open spec fn component_of<C: Component<V>>(&self, id: int) -> Option<C> {
        match self.value_in(C::spec_type_key() as int, id) {
            Some(v) => C::spec_from_value(v),
            None => None,
        }
    }

    pub open spec fn spec_is_valid(&self, e: Entity) -> bool {
        self.manager().spec_is_valid(e)
    }

    /// Slot index `id` owns a value in the store of every key of `keys`.
    pub open spec fn holds_all(&self, keys: Seq<usize>, id: int) -> bool {
        forall|i: int| 0 <= i < keys.len() ==> (#[trigger] self.value_in(keys[i] as int, id)) is Some
    }

    /// The row filter of a query over `keys`.
    pub open spec fn row_filter(&self, keys: Seq<usize>) -> spec_fn(Entity) -> bool {
        |e: Entity| self.holds_all(keys, e.spec_id() as int)
    }

    /// A store exists for every key of `keys`.
    pub open spec fn all_stored(&self, keys: Seq<usize>) -> bool {
        forall|i: int| 0 <= i < keys.len() ==> (#[trigger] self.store(keys[i] as int)) is Some
    }

    /// The number of values in the store of key `key`.
    pub open spec fn store_len(&self, key: int) -> nat {
        self.store(key).unwrap().spec_len()
    }

    /// `keys[d]` names the store that drives a query over `keys`: the first
    /// of the smallest stores.
    pub open spec fn is_driver(&self, keys: Seq<usize>, d: int) -> bool {
        &&& 0 <= d < keys.len()
        &&& forall|i: int|
            0 <= i < keys.len() ==> self.store_len(keys[d] as int) <= #[trigger] self.store_len(
                keys[i] as int,
            )
        &&& forall|i: int|
            0 <= i < d ==> self.store_len(keys[d] as int) < #[trigger] self.store_len(
                keys[i] as int,
            )
    }

    /// Every part is well formed, and every stored component belongs to a
    /// live entity.
    pub open spec fn wf(&self) -> bool {
        &&& self.manager().wf()
        &&& self.resource_storage().wf()
        &&& stores_wf(self.manager(), self.stores())
    }

    /// Creates a registry with no entity, store, resource or system.
    pub fn new() -> (r: Self)
        ensures
            r.wf(),
            r.manager().generations() == Seq::<u32>::empty(),
            r.manager().free_list() == Seq::<usize>::empty(),
            forall|k: int| r.store(k) is None,
            forall|k: int| r.resource_storage().value_at(k) is None,
    {
        Registry {
            entity_manager: EntityManager::new(),
            components: Vec::new(),
            resources: ResourceStorage::new(),
        }
    }

    /// Creates the store of component type `C` if there is none yet.
    pub fn register_component<C: Component<V>>(&mut self)
        requires
            old(self).wf(),
        ensures
            final(self).wf(),
            final(self).manager() == old(self).manager(),
            final(self).resource_storage() == old(self).resource_storage(),
            final(self).store(C::spec_type_key() as int) is Some,
            forall|k: int, id: int| #[trigger] final(self).value_in(k, id) == old(self).value_in(k, id),
            forall|k: int|
                k != C::spec_type_key() ==> #[trigger] final(self).store(k) == old(self).store(k),
    {
        let key = C::type_key();
        self.ensure_store(key);
        proof {
            assert forall|k: int, id: int| #[trigger]
                self.value_in(k, id) == old(self).value_in(k, id) by {
                if k == key && old(self).store(key as int) is None {
                    assert(!self.stores()[key as int].unwrap().contains(id));
                } else {
                    assert(self.store(k) == old(self).store(k));
                }
            }
        }
    }

    /// Issues a new entity with no component.
    pub fn create_entity(&mut self) -> (r: Entity)
        requires
            old(self).wf(),
            old(self).manager().can_create(),
        ensures
            final(self).wf(),
            r == old(self).manager().next_entity(),
            final(self).spec_is_valid(r),
            old(self).manager().free_list().len() > 0 ==> {
                &&& final(self).manager().generations() == old(self).manager().generations()
                &&& final(self).manager().free_list() == old(self).manager().free_list().drop_last()
            },
            old(self).manager().free_list().len() == 0 ==> {
                &&& final(self).manager().generations() == old(self).manager().generations().push(
                    1,
                )
                &&& final(self).manager().free_list() == old(self).manager().free_list()
            },
            final(self).stores() == old(self).stores(),
            final(self).resource_storage() == old(self).resource_storage(),
    {
        let r = self.entity_manager.create_entity();
        proof {
            assert forall|k: int, j: int|
                0 <= k < self.stores().len() && self.stores()[k] is Some && 0 <= j
                    < self.stores()[k].unwrap().spec_entities().len() implies self.manager().spec_is_valid(
                #[trigger] self.stores()[k].unwrap().spec_entities()[j],
            ) by {
                assert(old(self).manager().spec_is_valid(self.stores()[k].unwrap().spec_entities()[j]));
            }
        }
        r
    }

    /// Attaches `component` to `entity`, replacing any component of the same
    /// type; the store is created on first use. Fails when `entity` is not
    /// valid, changing nothing.
    pub fn add_component<C: Component<V>>(&mut self, entity: Entity, component: C) -> (r: Result<
        (),
        RecsError,
    >)
        requires
            old(self).wf(),
        ensures
            final(self).wf(),
            r is Ok <==> old(self).spec_is_valid(entity),
            r is Err ==> r == Err::<(), RecsError>(RecsError::InvalidEntity(entity)),
            final(self).manager() == old(self).manager(),
            final(self).resource_storage() == old(self).resource_storage(),
            r is Err ==> final(self).stores() == old(self).stores(),
            r is Ok ==> {
                &&& final(self).store(C::spec_type_key() as int) is Some
                &&& final(self).component_of::<C>(entity.spec_id() as int) == Some(component)
                &&& final(self).value_in(C::spec_type_key() as int, entity.spec_id() as int) is Some
                &&& forall|k: int, id: int|
                    k != C::spec_type_key() || id != entity.spec_id() ==> #[trigger] final(self).value_in(k, id) == old(self).value_in(k, id)
                &&& forall|k: int|
                    k != C::spec_type_key() ==> #[trigger] final(self).store(k) == old(self).store(k)
            },
    {
        if !self.entity_manager.is_valid(entity) {
            return Err(RecsError::InvalidEntity(entity));
        }
        let key = C::type_key();
        self.ensure_store(key);
        let ghost mid = self.components@;
        let ghost mid_reg = *self;
        let value = C::into_value(component);
        let slot = &mut self.components[key];
        match slot {
            Some(ss) => ss.insert(entity, value),
            None => {},
        }
        proof {
            assert(self.components@ == mid.update(key as int, self.components@[key as int]));
            assert forall|k: int|
                0 <= k < self.stores().len() && (#[trigger] self.stores()[k]) is Some implies self.stores()[k].unwrap().wf() by {
                if k != key {
                    assert(mid[k] == self.stores()[k]);
                }
            }
            assert forall|k: int, j: int|
                0 <= k < self.stores().len() && self.stores()[k] is Some && 0 <= j
                    < self.stores()[k].unwrap().spec_entities().len() implies self.manager().spec_is_valid(
                #[trigger] self.stores()[k].unwrap().spec_entities()[j],
            ) by {
                if k != key {
                    assert(mid[k] == self.stores()[k]);
                } else {
                    let s0 = mid[key as int].unwrap();
                    let s1 = self.stores()[key as int].unwrap();
                    if j < s0.spec_entities().len() && j < s1.spec_entities().len() && s1.spec_entities()[j] != entity {
                        assert(s1.spec_entities()[j] == s0.spec_entities()[j]);
                    }
                }
            }
            assert forall|k: int, id: int|
                k != key || id != entity.spec_id() implies #[trigger] self.value_in(k, id)
                == old(self).value_in(k, id) by {
                assert(mid_reg.stores() == mid);
                if k == key {
                    let s0 = mid[key as int].unwrap();
                    let s1 = self.stores()[key as int].unwrap();
                    assert(s1.spec_get(id) == s0.spec_get(id));
                    if old(self).store(key as int) is None {
                        assert(!s0.contains(id));
                    } else {
                        assert(mid_reg.store(k) == old(self).store(k));
                    }
                } else {
                    assert(mid_reg.store(k) == old(self).store(k));
                    if 0 <= k < self.stores().len() {
                        assert(self.stores()[k] == mid[k]);
                    }
                }
            }
            let s1 = self.stores()[key as int].unwrap();
            assert(s1.spec_get(entity.spec_id() as int) == Some(value));
            assert forall|k: int| k != key implies #[trigger] self.store(k) == old(self).store(k) by {
                assert(mid_reg.store(k) == old(self).store(k));
                if 0 <= k < self.stores().len() {
                    assert(self.stores()[k] == mid[k]);
                }
            }
        }
        Ok(())
    }

    /// The component of type `C` attached to `entity`; none when the entity
    /// is not valid or carries no such component.
    pub fn get_component<C: Component<V>>(&self, entity: Entity) -> (r: Option<&C>)
        requires
            self.wf(),
        ensures
            r is Some <==> self.spec_is_valid(entity) && self.component_of::<C>(
                entity.spec_id() as int,
            ) is Some,
            r is Some ==> *r.unwrap() == self.component_of::<C>(entity.spec_id() as int).unwrap(),
    {
        if !self.entity_manager.is_valid(entity) {
            return None;
        }
        let key = C::type_key();
        if key >= self.components.len() {
            return None;
        }
        match &self.components[key] {
            Some(ss) => match ss.get(entity.id() as usize) {
                Some(v) => C::from_value(v),
                None => None,
            },
            None => None,
        }
    }

    /// Mutable access to the component of type `C` attached to `entity`;
    /// none when the entity is not valid or carries no such component.
    pub fn get_component_mut<C: Component<V>>(&mut self, entity: Entity) -> (r: Option<&mut C>)
        requires
            old(self).wf(),
        ensures
            final(self).wf(),
            r is Some <==> old(self).spec_is_valid(entity) && old(self).component_of::<C>(
                entity.spec_id() as int,
            ) is Some,
            final(self).manager() == old(self).manager(),
            final(self).resource_storage() == old(self).resource_storage(),
            forall|k: int, id: int|
                k != C::spec_type_key() || id != entity.spec_id() ==> #[trigger] final(self).value_in(k, id) == old(self).value_in(k, id),
            forall|k: int| #[trigger] final(self).store(k) is Some == old(self).store(k) is Some,
            r is None ==> final(self).value_in(C::spec_type_key() as int, entity.spec_id() as int)
                == old(self).value_in(C::spec_type_key() as int, entity.spec_id() as int),
            r is Some ==> {
                &&& *r.unwrap() == old(self).component_of::<C>(entity.spec_id() as int).unwrap()
                &&& final(self).component_of::<C>(entity.spec_id() as int) == Some(
                    *final(r.unwrap()),
                )
            },
    {
        if !self.entity_manager.is_valid(entity) {
            return None;
        }
        let key = C::type_key();
        if key >= self.components.len() {
            return None;
        }
        if self.components[key].is_none() {
            return None;
        }
        let id = entity.id() as usize;
        proof {
            let s = self.components@[key as int].unwrap();
            assert(self.components@.update(key as int, self.components@[key as int]) =~= self.components@);
            assert forall|s2: SparseSet<V>| #[trigger] same_but_value(s, s2, s.slot(id as int)) && s.contains(id as int) implies {
                &&& stores_wf(self.manager(), self.components@.update(key as int, Some(s2)))
                &&& forall|k: int, i: int|
                    (k != key || i != id) ==> #[trigger] value_in_seq(self.components@.update(key as int, Some(s2)), k, i) == value_in_seq(self.components@, k, i)
                &&& value_in_seq(self.components@.update(key as int, Some(s2)), key as int, id as int)
                    == Some(s2.spec_dense()[s.slot(id as int)])
            } by {
                let t = self.components@.update(key as int, Some(s2));
                assert forall|k: int|
                    0 <= k < t.len() && (#[trigger] t[k]) is Some implies t[k].unwrap().wf() by {
                    if k != key && 0 <= k < t.len() {
                        assert(t[k] == self.components@[k]);
                    }
                }
                assert forall|k: int, j: int|
                    0 <= k < t.len() && t[k] is Some && 0 <= j
                        < t[k].unwrap().spec_entities().len() implies self.manager().spec_is_valid(
                    #[trigger] t[k].unwrap().spec_entities()[j],
                ) by {
                    if k != key && 0 <= k < t.len() {
                        assert(t[k] == self.components@[k]);
                    }
                }
                assert forall|k: int, i: int|
                    (k != key || i != id) implies #[trigger] value_in_seq(t, k, i) == value_in_seq(self.components@, k, i) by {
                    if k == key && s.contains(i) {
                        assert(s.spec_entities()[s.slot(i)].spec_id() == i);
                        assert(s.spec_entities()[s.slot(id as int)].spec_id() == id);
                        assert(s.slot(i) != s.slot(id as int));
                        assert(s2.spec_dense()[s2.slot(i)] == s.spec_dense()[s.slot(i)]);
                    }
                    if k != key && 0 <= k < t.len() {
                        assert(t[k] == self.components@[k]);
                    }
                }
            }
            assert(self.value_in(key as int, id as int) == value_in_seq(self.components@, key as int, id as int));
        }
        let slot = &mut self.components[key];
        match slot {
            Some(ss) => match ss.get_mut(id) {
                Some(v) => C::from_value_mut(v),
                None => None,
            },
            None => None,
        }
    }

    /// Destroys `entity` and drops every component it carries, from every
    /// store. Fails, changing nothing, when `entity` is not valid.
    pub fn destroy_entity(&mut self, entity: Entity) -> (r: Result<(), RecsError>)
        requires
            old(self).wf(),
            old(self).spec_is_valid(entity) ==> entity.spec_generation() < u32::MAX,
        ensures
            final(self).wf(),
            r is Ok <==> old(self).spec_is_valid(entity),
            r is Err ==> r == Err::<(), RecsError>(RecsError::InvalidEntity(entity)) && *final(self)
                == *old(self),
            final(self).resource_storage() == old(self).resource_storage(),
            r is Ok ==> {
                &&& final(self).manager().generations() == old(self).manager().generations().update(
                    entity.spec_id() as int,
                    (entity.spec_generation() + 1) as u32,
                )
                &&& final(self).manager().free_list() == old(self).manager().free_list().push(
                    entity.spec_id() as usize,
                )
                &&& forall|k: int| #[trigger] final(self).value_in(k, entity.spec_id() as int) is None
                &&& forall|k: int, id: int|
                    id != entity.spec_id() ==> #[trigger] final(self).value_in(k, id) == old(self).value_in(k, id)
                &&& forall|k: int| #[trigger] final(self).store(k) is Some == old(self).store(k) is Some
                &&& forall|k: int|
                    #[trigger] old(self).store(k) is Some ==> final(self).store(k).unwrap().spec_len()
                        + (if old(self).store(k).unwrap().contains(entity.spec_id() as int) {
                        1nat
                    } else {
                        0nat
                    }) == old(self).store(k).unwrap().spec_len()
            },
    {
        match self.entity_manager.destroy_entity(entity) {
            Ok(()) => {},
            Err(e) => {
                return Err(e);
            },
        }
        let id = entity.id() as usize;
        let ghost m1 = self.entity_manager;
        let mut k: usize = 0;
        while k < self.components.len()
            invariant
                self.entity_manager == m1,
                m1.generations() == old(self).manager().generations().update(
                    entity.spec_id() as int,
                    (entity.spec_generation() + 1) as u32,
                ),
                m1.free_list() == old(self).manager().free_list().push(entity.spec_id() as usize),
                m1.generations().len() == old(self).manager().generations().len(),
                forall|i: int|
                    0 <= i < m1.generations().len() && i != id ==> #[trigger] m1.generations()[i]
                        == old(self).manager().generations()[i],
                id == entity.spec_id(),
                self.resources == old(self).resources,
                self.manager().wf(),
                self.resource_storage().wf(),
                self.components@.len() == old(self).components@.len(),
                forall|q: int| k <= q < self.components@.len() ==> #[trigger] self.components@[q] == old(self).components@[q],
                forall|q: int|
                    0 <= q < k && (#[trigger] old(self).components@[q]) is Some ==> self.components@[q].unwrap().spec_len()
                        + (if old(self).components@[q].unwrap().contains(id as int) {
                        1nat
                    } else {
                        0nat
                    }) == old(self).components@[q].unwrap().spec_len(),
                k <= self.components@.len(),
                forall|q: int|
                    0 <= q < self.components@.len() && (#[trigger] self.components@[q]) is Some
                        ==> self.components@[q].unwrap().wf(),
                forall|q: int| #[trigger] self.store(q) is Some == old(self).store(q) is Some,
                forall|q: int, i: int|
                    (i != id || q >= k) ==> #[trigger] value_in_seq(self.components@, q, i)
                        == value_in_seq(old(self).components@, q, i),
                forall|q: int| 0 <= q < k ==> #[trigger] value_in_seq(self.components@, q, id as int) is None,
                forall|q: int, j: int|
                    0 <= q < self.components@.len() && self.components@[q] is Some && 0 <= j
                        < self.components@[q].unwrap().spec_entities().len() ==> (q < k ==> self.manager().spec_is_valid(
                        #[trigger] self.components@[q].unwrap().spec_entities()[j]))
                        && (q >= k ==> old(self).manager().spec_is_valid(self.components@[q].unwrap().spec_entities()[j])),
            decreases self.components@.len() - k,
        {
            let ghost before = self.components@;
            let ghost before_reg = *self;
            let slot = &mut self.components[k];
            match slot {
                Some(ss) => {
                    ss.remove(id);
                },
                None => {},
            }
            proof {
                assert forall|q: int, i: int|
                    (i != id || q >= k + 1) implies #[trigger] value_in_seq(self.components@, q, i)
                        == value_in_seq(old(self).components@, q, i) by {
                    if q == k {
                        assert(value_in_seq(self.components@, q, i) == value_in_seq(before, q, i));
                    } else if 0 <= q < self.components@.len() {
                        assert(self.components@[q] == before[q]);
                    }
                }
                assert forall|q: int| 0 <= q < k + 1 implies #[trigger] value_in_seq(self.components@, q, id as int) is None by {
                    if q < k {
                        assert(self.components@[q] == before[q]);
                        assert(value_in_seq(before, q, id as int) is None);
                    } else if self.components@[q] is Some {
                        assert(self.components@[q].unwrap().spec_get(id as int) is None);
                    }
                }
                assert forall|q: int| #[trigger] self.store(q) is Some == old(self).store(q) is Some by {
                    assert(before_reg.store(q) is Some == old(self).store(q) is Some);
                    if 0 <= q < self.components@.len() && q != k {
                        assert(self.components@[q] == before[q]);
                    }
                }
                assert forall|q: int|
                    0 <= q < self.components@.len() && (#[trigger] self.components@[q]) is Some
                        implies self.components@[q].unwrap().wf() by {
                    if q != k {
                        assert(self.components@[q] == before[q]);
                    }
                }
                assert forall|q: int, j: int|
                    0 <= q < self.components@.len() && self.components@[q] is Some && 0 <= j
                        < self.components@[q].unwrap().spec_entities().len() implies (q < k + 1 ==> self.manager().spec_is_valid(
                        #[trigger] self.components@[q].unwrap().spec_entities()[j]))
                        && (q >= k + 1 ==> old(self).manager().spec_is_valid(self.components@[q].unwrap().spec_entities()[j])) by {
                    if q != k {
                        assert(self.components@[q] == before[q]);
                        let e = before[q].unwrap().spec_entities()[j];
                        if q < k {
                            assert(self.manager().spec_is_valid(e));
                        } else {
                            assert(old(self).manager().spec_is_valid(e));
                        }
                    } else {
                        let s0 = before[q].unwrap();
                        let s1 = self.components@[q].unwrap();
                        let e1 = s1.spec_entities()[j];
                        // a surviving owner was recorded before, for another slot index
                        assert(s1.spec_sparse()[e1.spec_id() as int] == Some(j as usize));
                        assert(s1.spec_get(id as int) is None);
                        assert(e1.spec_id() != id);
                        if s0.contains(id as int) {
                            let last = s0.spec_entities().len() - 1;
                            if j == s0.slot(id as int) {
                                assert(e1 == s0.spec_entities()[last]);
                                assert(old(self).manager().spec_is_valid(before[q].unwrap().spec_entities()[last]));
                            } else {
                                assert(e1 == s0.spec_entities()[j]);
                                assert(old(self).manager().spec_is_valid(before[q].unwrap().spec_entities()[j]));
                            }
                        } else {
                            assert(e1 == s0.spec_entities()[j]);
                            assert(old(self).manager().spec_is_valid(before[q].unwrap().spec_entities()[j]));
                        }
                        assert(old(self).manager().spec_is_valid(e1));
                        assert(m1.generations()[e1.spec_id() as int]
                            == old(self).manager().generations()[e1.spec_id() as int]);
                    }
                }
            }
            k = k + 1;
        }
        Ok(())
    }

    /// Detaches and returns the component of type `C` of `entity`. Fails with
    /// `InvalidEntity` when the entity is not valid, and with
    /// `ComponentNotFound` when it carries no such component.
    pub fn remove_component<C: Component<V>>(&mut self, entity: Entity) -> (r: Result<C, RecsError>)
        requires
            old(self).wf(),
        ensures
            final(self).wf(),
            !old(self).spec_is_valid(entity) ==> r == Err::<C, RecsError>(
                RecsError::InvalidEntity(entity),
            ),
            old(self).spec_is_valid(entity) ==> r == match old(self).component_of::<C>(
                entity.spec_id() as int,
            ) {
                Some(c) => Ok::<C, RecsError>(c),
                None => Err(RecsError::ComponentNotFound(C::spec_type_key())),
            },
            r is Ok ==> final(self).value_in(C::spec_type_key() as int, entity.spec_id() as int) is None,
            r is Err ==> final(self).stores() == old(self).stores(),
            final(self).manager() == old(self).manager(),
            final(self).resource_storage() == old(self).resource_storage(),
            forall|k: int, id: int|
                k != C::spec_type_key() || id != entity.spec_id() ==> #[trigger] final(self).value_in(k, id) == old(self).value_in(k, id),
            forall|k: int| #[trigger] final(self).store(k) is Some == old(self).store(k) is Some,
    {
        if !self.entity_manager.is_valid(entity) {
            return Err(RecsError::InvalidEntity(entity));
        }
        let key = C::type_key();
        if key >= self.components.len() {
            return Err(RecsError::ComponentNotFound(key));
        }
        let id = entity.id() as usize;
        let holds_c = match &self.components[key] {
            Some(ss) => match ss.get(id) {
                Some(v) => C::from_value(v).is_some(),
                None => false,
            },
            None => false,
        };
        if !holds_c {
            return Err(RecsError::ComponentNotFound(key));
        }
        let ghost before = self.components@;
        let ghost before_reg = *self;
        let slot = &mut self.components[key];
        let taken = match slot {
            Some(ss) => ss.remove(id),
            None => None,
        };
        proof {
            assert forall|k: int, i: int|
                k != key || i != id implies #[trigger] self.value_in(k, i) == old(self).value_in(k, i) by {
                if 0 <= k < self.components@.len() && k != key {
                    assert(self.components@[k] == before[k]);
                }
            }
            assert forall|k: int| #[trigger] self.store(k) is Some == old(self).store(k) is Some by {
                if 0 <= k < self.components@.len() && k != key {
                    assert(self.components@[k] == before[k]);
                }
            }
            if self.components@[key as int] is Some {
                assert(self.components@[key as int].unwrap().spec_get(id as int) is None);
            }
            assert forall|k: int|
                0 <= k < self.stores().len() && (#[trigger] self.stores()[k]) is Some implies self.stores()[k].unwrap().wf() by {
                if k != key {
                    assert(self.components@[k] == before[k]);
                }
            }
            assert forall|k: int, j: int|
                0 <= k < self.stores().len() && self.stores()[k] is Some && 0 <= j
                    < self.stores()[k].unwrap().spec_entities().len() implies self.manager().spec_is_valid(
                #[trigger] self.stores()[k].unwrap().spec_entities()[j],
            ) by {
                if k != key {
                    assert(self.components@[k] == before[k]);
                } else {
                    let s0 = before[k].unwrap();
                    let s1 = self.stores()[k].unwrap();
                    lemma_removal_keeps_owners(s0, s1, id as int, j);
                    let j0 = choose|j0: int|
                        0 <= j0 < s0.spec_entities().len() && #[trigger] s0.spec_entities()[j0]
                            == s1.spec_entities()[j];
                    assert(before_reg.manager().spec_is_valid(before[k].unwrap().spec_entities()[j0]));
                }
            }
        }
        match taken {
            Some(v) => match C::from_value_owned(v) {
                Some(c) => Ok(c),
                None => Err(RecsError::ComponentNotFound(key)),
            },
            None => Err(RecsError::ComponentNotFound(key)),
        }
    }

    /// Stores `resource`, replacing any resource of the same type.
    pub fn insert_resource<R: Resource<V>>(&mut self, resource: R)
        requires
            old(self).wf(),
        ensures
            final(self).wf(),
            final(self).manager() == old(self).manager(),
            final(self).stores() == old(self).stores(),
            final(self).resource_storage().resource_of::<R>() == Some(resource),
            final(self).resource_storage().value_at(R::spec_type_key() as int) is Some,
            forall|k: int|
                k != R::spec_type_key() ==> #[trigger] final(self).resource_storage().value_at(k)
                    == old(self).resource_storage().value_at(k),
            final(self).resource_storage().spec_len() == old(self).resource_storage().spec_len()
                + if old(self).resource_storage().value_at(R::spec_type_key() as int) is Some {
                0nat
            } else {
                1nat
            },
    {
        self.resources.insert(resource);
    }

    /// The stored resource of type `R`, if any.
    pub fn get_resource<R: Resource<V>>(&self) -> (r: Option<&R>)
        ensures
            r is Some <==> self.resource_storage().resource_of::<R>() is Some,
            r is Some ==> *r.unwrap() == self.resource_storage().resource_of::<R>().unwrap(),
    {
        self.resources.get::<R>()
    }

    /// Mutable access to the stored resource of type `R`, if any.
    pub fn get_resource_mut<R: Resource<V>>(&mut self) -> (r: Option<&mut R>)
        requires
            old(self).wf(),
        ensures
            final(self).wf(),
            final(self).manager() == old(self).manager(),
            final(self).stores() == old(self).stores(),
            r is Some <==> old(self).resource_storage().resource_of::<R>() is Some,
            r is None ==> final(self).resource_storage().spec_slots() == old(self).resource_storage().spec_slots(),
            r is Some ==> {
                &&& *r.unwrap() == old(self).resource_storage().resource_of::<R>().unwrap()
                &&& final(self).resource_storage().resource_of::<R>() == Some(*final(r.unwrap()))
                &&& final(self).resource_storage().value_at(R::spec_type_key() as int) is Some
                &&& forall|k: int|
                    k != R::spec_type_key() ==> #[trigger] final(self).resource_storage().value_at(k)
                        == old(self).resource_storage().value_at(k)
            },
    {
        self.resources.get_mut::<R>()
    }

    /// Takes out the resource of type `R`, if any; a value of another type
    /// under the same key stays in place.
    pub fn remove_resource<R: Resource<V>>(&mut self) -> (r: Option<R>)
        requires
            old(self).wf(),
        ensures
            final(self).wf(),
            final(self).manager() == old(self).manager(),
            final(self).stores() == old(self).stores(),
            r == old(self).resource_storage().resource_of::<R>(),
            r is None ==> final(self).resource_storage().spec_slots() == old(self).resource_storage().spec_slots(),
            r is Some ==> final(self).resource_storage().value_at(R::spec_type_key() as int) is None,
            forall|k: int|
                k != R::spec_type_key() ==> #[trigger] final(self).resource_storage().value_at(k)
                    == old(self).resource_storage().value_at(k),
    {
        self.resources.remove::<R>()
    }

    /// Whether a resource is stored under the key of `R`.
    pub fn has_resource<R: Resource<V>>(&self) -> (r: bool)
        ensures
            r == self.resource_storage().value_at(R::spec_type_key() as int) is Some,
    {
        self.resources.contains::<R>()
    }

    /// Stores the default `R` unless a resource of its type is stored.
    pub fn init_resource<R: Resource<V> + Default>(&mut self)
        requires
            old(self).wf(),
        ensures
            final(self).wf(),
            final(self).manager() == old(self).manager(),
            final(self).stores() == old(self).stores(),
            old(self).resource_storage().value_at(R::spec_type_key() as int) is Some ==> final(self).resource_storage() == old(self).resource_storage(),
            final(self).resource_storage().value_at(R::spec_type_key() as int) is Some,
            old(self).resource_storage().value_at(R::spec_type_key() as int) is None ==> exists|d: R|
                call_ensures(R::default, (), d) && #[trigger] final(self).resource_storage().resource_of::<R>() == Some(d),
            forall|k: int|
                k != R::spec_type_key() ==> #[trigger] final(self).resource_storage().value_at(k)
                    == old(self).resource_storage().value_at(k),
    {
        if !self.has_resource::<R>() {
            self.insert_resource(R::default());
        }
    }

    /// The entities that carry a component of every type that `query`
    /// requests, in the packed order of the smallest of those stores (the
    /// first such, on a tie). Empty when the query requests no type or some
    /// requested type has no store.
    pub fn query(&self, query: &Query) -> (r: Vec<Entity>)
        requires
            self.wf(),
        ensures
            query.spec_keys().len() == 0 || !self.all_stored(query.spec_keys()) ==> r@.len() == 0,
            query.spec_keys().len() > 0 && self.all_stored(query.spec_keys()) ==> exists|d: int|
                #[trigger] self.is_driver(query.spec_keys(), d) && r@ == self.store(
                    query.spec_keys()[d] as int,
                ).unwrap().spec_entities().filter(self.row_filter(query.spec_keys())),
            forall|a: int|
                0 <= a < r@.len() ==> self.holds_all(query.spec_keys(), (#[trigger] r@[a]).spec_id() as int)
                    && self.spec_is_valid(r@[a]),
            forall|a: int, b: int|
                0 <= a < b < r@.len() ==> (#[trigger] r@[a]).spec_id() != (#[trigger] r@[b]).spec_id(),
            query.spec_keys().len() > 0 ==> forall|id: int|
                #[trigger] self.holds_all(query.spec_keys(), id) ==> exists|a: int|
                    0 <= a < r@.len() && (#[trigger] r@[a]).spec_id() == id,
    {
        let keys = query.keys();
        let n = keys.len();
        let ghost ks = query.spec_keys();
        if n == 0 {
            return Vec::new();
        }
        let mut d: usize = 0;
        let mut best: usize = 0;
        let mut i: usize = 0;
        while i < n
            invariant
                keys@ == ks,
                ks == query.spec_keys(),
                n == ks.len(),
                n > 0,
                i <= n,
                forall|q: int| 0 <= q < i ==> (#[trigger] self.store(ks[q] as int)) is Some,
                i > 0 ==> d < i && best == self.store_len(ks[d as int] as int),
                i > 0 ==> forall|q: int| 0 <= q < i ==> best <= #[trigger] self.store_len(ks[q] as int),
                i > 0 ==> forall|q: int| 0 <= q < d ==> best < #[trigger] self.store_len(ks[q] as int),
            decreases n - i,
        {
            let k = keys[i];
            if k >= self.components.len() || self.components[k].is_none() {
                proof {
                    assert(self.store(ks[i as int] as int) is None);
                    assert forall|id: int| !#[trigger] self.holds_all(ks, id) by {
                        assert(self.value_in(ks[i as int] as int, id) is None);
                    }
                }
                return Vec::new();
            }
            let len = match &self.components[k] {
                Some(ss) => ss.len(),
                None => 0,
            };
            if i == 0 || len < best {
                d = i;
                best = len;
            }
            i = i + 1;
        }
        proof {
            assert(self.is_driver(ks, d as int));
            assert(self.store(ks[d as int] as int) is Some);
        }
        let driver = match &self.components[keys[d]] {
            Some(ss) => ss,
            None => {
                return Vec::new();
            },
        };
        let ghost s = *driver;
        let ents = driver.entities();
        let ghost pred = self.row_filter(ks);
        let mut out: Vec<Entity> = Vec::new();
        let mut j: usize = 0;
        while j < ents.len()
            invariant
                keys@ == ks,
                ks == query.spec_keys(),
                n == ks.len(),
                self.store(ks[d as int] as int) == Some(s),
                s.wf(),
                self.wf(),
                0 <= d < n,
                ents@ == s.spec_entities(),
                j <= ents@.len(),
                pred == self.row_filter(ks),
                out@ == ents@.take(j as int).filter(pred),
                forall|a: int|
                    0 <= a < out@.len() ==> s.contains((#[trigger] out@[a]).spec_id() as int)
                        && s.slot(out@[a].spec_id() as int) < j && self.holds_all(ks, out@[a].spec_id() as int)
                        && self.spec_is_valid(out@[a]),
                forall|a: int, b: int|
                    0 <= a < b < out@.len() ==> (#[trigger] out@[a]).spec_id() != (#[trigger] out@[b]).spec_id(),
                forall|q: int|
                    0 <= q < j && self.holds_all(ks, (#[trigger] ents@[q]).spec_id() as int) ==> exists|a: int|
                        0 <= a < out@.len() && out@[a] == ents@[q],
            decreases ents@.len() - j,
        {
            let e = ents[j];
            let keep = self.holds_all_exec(keys, e.id() as usize);
            proof {
                reveal(Seq::filter);
                assert(ents@.take(j + 1).drop_last() =~= ents@.take(j as int));
                assert(ents@.take(j + 1).last() == e);
                assert(s.spec_sparse()[e.spec_id() as int] == Some(j));
                assert(self.spec_is_valid(self.stores()[ks[d as int] as int].unwrap().spec_entities()[j as int]));
            }
            if keep {
                let ghost before = out@;
                out.push(e);
                proof {
                    assert forall|q: int|
                        0 <= q < j + 1 && self.holds_all(ks, (#[trigger] ents@[q]).spec_id() as int) implies exists|a: int|
                            0 <= a < out@.len() && out@[a] == ents@[q] by {
                        if q == j {
                            assert(out@[before.len() as int] == ents@[q]);
                        } else {
                            let a = choose|a: int| 0 <= a < before.len() && before[a] == ents@[q];
                            assert(out@[a] == ents@[q]);
                        }
                    }
                }
            }
            j = j + 1;
        }
        proof {
            assert(ents@.take(j as int) =~= ents@);
            assert forall|id: int| #[trigger] self.holds_all(ks, id) implies exists|a: int|
                0 <= a < out@.len() && (#[trigger] out@[a]).spec_id() == id by {
                assert(self.value_in(ks[d as int] as int, id) is Some);
                let q = s.slot(id);
                assert(ents@[q].spec_id() == id);
                let a = choose|a: int| 0 <= a < out@.len() && out@[a] == ents@[q];
                assert(out@[a].spec_id() == id);
            }
        }
        out
    }

    /// Whether slot index `id` owns a value in the store of every key of `keys`.
    fn holds_all_exec(&self, keys: &[usize], id: usize) -> (r: bool)
        requires
            self.wf(),
        ensures
            r == self.holds_all(keys@, id as int),
    {
        let mut i: usize = 0;
        while i < keys.len()
            invariant
                self.wf(),
                i <= keys@.len(),
                forall|q: int| 0 <= q < i ==> (#[trigger] self.value_in(keys@[q] as int, id as int)) is Some,
            decreases keys@.len() - i,
        {
            let k = keys[i];
            if k >= self.components.len() || self.components[k].is_none() {
                proof {
                    assert(self.value_in(keys@[i as int] as int, id as int) is None);
                }
                return false;
            }
            match &self.components[k] {
                Some(ss) => {
                    proof {
                        assert(self.stores()[k as int] is Some);
                    }
                    if ss.get(id).is_none() {
                        proof {
                            assert(self.value_in(keys@[i as int] as int, id as int) is None);
                        }
                        return false;
                    }
                },
                None => {},
            }
            i = i + 1;
        }
        true
    }

    /// Issues a new entity and attaches every component of `bundle` to it.
    pub fn spawn<B: ComponentBundle<V>>(&mut self, bundle: B) -> (r: Entity)
        requires
            old(self).wf(),
            old(self).manager().can_create(),
        ensures
            final(self).wf(),
            r == old(self).manager().next_entity(),
            final(self).spec_is_valid(r),
            bundle.attached(*final(self), r.spec_id() as int),
            final(self).resource_storage() == old(self).resource_storage(),
            forall|k: int, id: int|
                id != r.spec_id() ==> #[trigger] final(self).value_in(k, id) == old(self).value_in(k, id),
            old(self).manager().free_list().len() > 0 ==> {
                &&& final(self).manager().generations() == old(self).manager().generations()
                &&& final(self).manager().free_list() == old(self).manager().free_list().drop_last()
            },
            old(self).manager().free_list().len() == 0 ==> {
                &&& final(self).manager().generations() == old(self).manager().generations().push(1)
                &&& final(self).manager().free_list() == old(self).manager().free_list()
            },
    {
        let entity = self.create_entity();
        let added = bundle.add_to_entity(self, entity);
        proof {
            assert(added is Ok);
        }
        entity
    }

    /// The first key of `keys` under which no resource is stored, if any.
    pub fn missing_resource(&self, keys: &[usize]) -> (r: Option<usize>)
        ensures
            r is None <==> forall|q: int|
                0 <= q < keys@.len() ==> (#[trigger] self.resource_storage().value_at(
                    keys@[q] as int,
                )) is Some,
            r is Some ==> exists|q: int|
                0 <= q < keys@.len() && keys@[q] == r.unwrap() && self.resource_storage().value_at(
                    r.unwrap() as int,
                ) is None && forall|p: int|
                    0 <= p < q ==> (#[trigger] self.resource_storage().value_at(keys@[p] as int)) is Some,
    {
        let mut i: usize = 0;
        while i < keys.len()
            invariant
                i <= keys@.len(),
                forall|p: int|
                    0 <= p < i ==> (#[trigger] self.resource_storage().value_at(keys@[p] as int)) is Some,
            decreases keys@.len() - i,
        {
            if !self.resources.contains_key(keys[i]) {
                return Some(keys[i]);
            }
            i = i + 1;
        }
        None
    }

    /// Makes sure a store exists for component type key `key`.
    fn ensure_store(&mut self, key: usize)
        requires
            old(self).wf(),
        ensures
            final(self).wf(),
            final(self).manager() == old(self).manager(),
            final(self).resource_storage() == old(self).resource_storage(),
            final(self).stores().len() > key,
            final(self).stores()[key as int] is Some,
            old(self).store(key as int) is None ==> {
                &&& final(self).stores()[key as int].unwrap().spec_dense().len() == 0
                &&& final(self).stores()[key as int].unwrap().spec_sparse().len() == 0
            },
            forall|k: int|
                k != key || old(self).store(key as int) is Some ==> #[trigger] final(self).store(k)
                    == old(self).store(k),
    {
        let ghost old_components = self.components@;
        while self.components.len() <= key
            invariant
                self.entity_manager == old(self).entity_manager,
                self.resources == old(self).resources,
                old_components == old(self).components@,
                self.components@.len() >= old_components.len(),
                forall|k: int|
                    0 <= k < old_components.len() ==> self.components@[k] == old_components[k],
                forall|k: int|
                    old_components.len() <= k < self.components@.len() ==> self.components@[k] is None,
            decreases key + 1 - self.components.len(),
        {
            self.components.push(None);
        }
        if self.components[key].is_none() {
            self.components.set(key, Some(SparseSet::new()));
        }
        proof {
            assert forall|k: int|
                0 <= k < self.stores().len() && (#[trigger] self.stores()[k]) is Some implies self.stores()[k].unwrap().wf() by {
                if k != key {
                    assert(old(self).stores()[k] == self.stores()[k]);
                }
            }
            assert forall|k: int, j: int|
                0 <= k < self.stores().len() && self.stores()[k] is Some && 0 <= j
                    < self.stores()[k].unwrap().spec_entities().len() implies self.manager().spec_is_valid(
                #[trigger] self.stores()[k].unwrap().spec_entities()[j],
            ) by {
                if k != key || old(self).store(key as int) is Some {
                    assert(old(self).stores()[k] == self.stores()[k]);
                }
            }
        }
    }
}

} // verus!

verus! {

/// Destroying an entity leaves no component of any type for it: the entity
/// is no longer valid, and no store holds a value for its slot index.
pub proof fn lemma_destroyed_entity_has_no_components<V, C: Component<V>>(
    before: Registry<V>,
    after: Registry<V>,
    e: Entity,
)
    requires
        before.wf(),
        before.spec_is_valid(e),
        e.spec_generation() < u32::MAX,
        after.manager().generations() == before.manager().generations().update(
            e.spec_id() as int,
            (e.spec_generation() + 1) as u32,
        ),
        forall|k: int| #[trigger] after.value_in(k, e.spec_id() as int) is None,
    ensures
        !after.spec_is_valid(e),
        after.component_of::<C>(e.spec_id() as int) is None,
{
    assert(after.value_in(C::spec_type_key() as int, e.spec_id() as int) is None);
}

/// The slot indices of a sequence of entities.
pub open spec fn ids_of(s: Seq<Entity>) -> Seq<int> {
    s.map_values(|e: Entity| e.spec_id() as int)
}

/// The slot indices that own a value in both stores `a` and `b`.
pub open spec fn overlap<V>(registry: Registry<V>, a: usize, b: usize) -> Set<int> {
    Set::new(
        |id: int| registry.value_in(a as int, id) is Some && registry.value_in(b as int, id) is Some,
    )
}

/// A query over two component types yields exactly the entities that carry
/// both, each once: its result has as many rows as the overlap of the two
/// stores has slot indices.
pub proof fn lemma_two_type_query_is_overlap<V>(
    registry: Registry<V>,
    query: Query,
    r: Seq<Entity>,
    a: usize,
    b: usize,
)
    requires
        registry.wf(),
        query.spec_keys() == seq![a, b],
        forall|i: int|
            0 <= i < r.len() ==> registry.holds_all(query.spec_keys(), (#[trigger] r[i]).spec_id() as int),
        forall|i: int, j: int|
            0 <= i < j < r.len() ==> (#[trigger] r[i]).spec_id() != (#[trigger] r[j]).spec_id(),
        forall|id: int|
            #[trigger] registry.holds_all(query.spec_keys(), id) ==> exists|i: int|
                0 <= i < r.len() && (#[trigger] r[i]).spec_id() == id,
    ensures
        ids_of(r).to_set() == overlap(registry, a, b),
        r.len() == overlap(registry, a, b).len(),
{
    let ks = query.spec_keys();
    let ids = ids_of(r);
    assert forall|id: int| #[trigger] registry.holds_all(ks, id) <==> overlap(registry, a, b).contains(id) by {
        if overlap(registry, a, b).contains(id) {
            assert forall|i: int| 0 <= i < ks.len() implies (#[trigger] registry.value_in(ks[i] as int, id)) is Some by {
                if i == 0 {
                    assert(ks[i] == a);
                } else {
                    assert(ks[i] == b);
                }
            }
        }
        if registry.holds_all(ks, id) {
            assert(registry.value_in(ks[0] as int, id) is Some);
            assert(registry.value_in(ks[1] as int, id) is Some);
        }
    }
    assert forall|id: int| ids.to_set().contains(id) <==> overlap(registry, a, b).contains(id) by {
        if ids.to_set().contains(id) {
            assert(ids.contains(id));
            let i = choose|i: int| 0 <= i < ids.len() && ids[i] == id;
            assert(r[i].spec_id() == id);
        }
        if overlap(registry, a, b).contains(id) {
            assert(registry.holds_all(ks, id));
            let i = choose|i: int| 0 <= i < r.len() && (#[trigger] r[i]).spec_id() == id;
            assert(ids[i] == id);
            assert(ids.contains(id));
        }
    }
    assert(ids.to_set() =~= overlap(registry, a, b));
    assert(ids.no_duplicates()) by {
        assert forall|i: int, j: int| 0 <= i < ids.len() && 0 <= j < ids.len() && i != j implies ids[i] != ids[j] by {
            if i < j {
                assert(r[i].spec_id() != r[j].spec_id());
            } else {
                assert(r[j].spec_id() != r[i].spec_id());
            }
        }
    }
    ids.unique_seq_to_set();
}

} // verus!
