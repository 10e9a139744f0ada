use vstd::prelude::*;

use crate::error::RecsError;
use crate::registry::Registry;
use crate::resource::Resource;

verus! {

/// A unit of per-tick work, run by a schedule in registration order.
///
/// A system receives the whole registry, which it hands back when done, so
/// that no view of the registry outlives the call.
pub trait System<V> {
    /// The resource type keys that this system declares as mandatory.
    spec fn spec_required(&self) -> Seq<usize>;

    /// The resource type keys that this system declares as mandatory.
    fn required_resources(&self) -> (r: &[usize])
        ensures
            r@ == self.spec_required(),
    ;

    /// A run of this system may take `before` to `after`.
    spec fn spec_run(&self, before: Registry<V>, after: Registry<V>) -> bool;

    /// Runs the system once.
    fn run(&self, registry: Registry<V>) -> (r: Registry<V>)
        requires
            registry.wf(),
        ensures
            r.wf(),
            self.spec_run(registry, r),
    ;
}

/// A system made of a function and the resource types it cannot run without.
#[verifier::reject_recursive_types(V)]
pub struct FunctionSystem<V, F: Fn(Registry<V>) -> Registry<V>> {
    func: F,
    required: Vec<usize>,
    marker: std::marker::PhantomData<V>,
}

/// `func` may run on every well-formed registry and hands back a well-formed
/// one.
pub open spec fn keeps_registry_wf<V, F: Fn(Registry<V>) -> Registry<V>>(func: F) -> bool {
    &&& forall|r: Registry<V>| r.wf() ==> call_requires(func, (r,))
    &&& forall|r: Registry<V>, out: Registry<V>|
        r.wf() && call_ensures(func, (r,), out) ==> out.wf()
}

impl<V, F: Fn(Registry<V>) -> Registry<V>> FunctionSystem<V, F> {
    #[verifier::type_invariant]
    closed spec fn inv(self) -> bool {
        keeps_registry_wf(self.func)
    }

    pub closed spec fn spec_func(&self) -> F {
        self.func
    }

    /// A system that runs `func` and declares no mandatory resource.
    pub fn new(func: F) -> (r: Self)
        requires
            keeps_registry_wf(func),
        ensures
            r.spec_func() == func,
            r.spec_required() == Seq::<usize>::empty(),
    {
        FunctionSystem { func, required: Vec::new(), marker: std::marker::PhantomData }
    }

    /// This system, also declaring resource type `R` as mandatory.
    pub fn needs<R: Resource<V>>(self) -> (r: Self)
        ensures
            r.spec_func() == self.spec_func(),
            r.spec_required() == self.spec_required().push(R::spec_type_key()),
    {
        proof {
            use_type_invariant(&self);
        }
        let FunctionSystem { func, required, marker } = self;
        let mut required = required;
        required.push(R::type_key());
        FunctionSystem { func, required, marker }
    }
}

impl<V, F: Fn(Registry<V>) -> Registry<V>> System<V> for FunctionSystem<V, F> {
    closed spec fn spec_required(&self) -> Seq<usize> {
        self.required@
    }

    open spec fn spec_run(&self, before: Registry<V>, after: Registry<V>) -> bool {
        call_ensures(self.spec_func(), (before,), after)
    }

    fn required_resources(&self) -> (r: &[usize]) {
        self.required.as_slice()
    }

    fn run(&self, registry: Registry<V>) -> (r: Registry<V>) {
        proof {
            use_type_invariant(self);
        }
        (self.func)(registry)
    }
}

/// A registered system of any type.
#[verifier::reject_recursive_types(V)]
pub struct BoxedSystem<V> {
    system: Box<dyn System<V>>,
}

impl<V> BoxedSystem<V> {
    /// The resource type keys that the system declares as mandatory.
    pub closed spec fn required(&self) -> Seq<usize> {
        self.system.spec_required()
    }

    /// A run of the system may take `before` to `after`.
    pub closed spec fn runs(&self, before: Registry<V>, after: Registry<V>) -> bool {
        self.system.spec_run(before, after)
    }
}

/// Every key of `keys` names a stored resource of `registry`.
pub open spec fn all_present<V>(registry: Registry<V>, keys: Seq<usize>) -> bool {
    forall|q: int|
        0 <= q < keys.len() ==> (#[trigger] registry.resource_storage().value_at(keys[q] as int)) is Some
}

/// `k` is the first key of `keys` that names no stored resource of `registry`.
pub open spec fn first_missing<V>(registry: Registry<V>, keys: Seq<usize>, k: usize) -> bool {
    exists|q: int|
        0 <= q < keys.len() && keys[q] == k && registry.resource_storage().value_at(k as int) is None
            && forall|p: int|
            0 <= p < q ==> (#[trigger] registry.resource_storage().value_at(keys[p] as int)) is Some
}

/// `regs` records a run of the first `n` systems of `systems`, in order:
/// each found its mandatory resources stored in `regs[i]` and took it to
/// `regs[i + 1]`.
pub open spec fn ran_in_order<V>(systems: Seq<BoxedSystem<V>>, regs: Seq<Registry<V>>, n: int) -> bool {
    &&& 0 <= n <= systems.len()
    &&& regs.len() == n + 1
    &&& forall|i: int| 0 <= i < n ==> #[trigger] all_present(regs[i], systems[i].required())
    &&& forall|i: int| 0 <= i < n ==> #[trigger] systems[i].runs(regs[i], regs[i + 1])
}

/// Appends `x` to `v`.
fn append_one<T>(v: &mut Vec<T>, x: T)
    ensures
        final(v)@.len() == old(v)@.len() + 1,
        final(v)@.last() == x,
        final(v)@.subrange(0, old(v)@.len() as int) == old(v)@,
{
    v.push(x);
    proof {
        assert(v@.subrange(0, old(v)@.len() as int) =~= old(v)@);
    }
}

/// The registered systems of a registry, in registration order, which is
/// the order they run in.
#[verifier::reject_recursive_types(V)]
pub struct Schedule<V> {
    systems: Vec<BoxedSystem<V>>,
}

impl<V> Schedule<V> {
    /// The registered systems, in registration order.
    pub closed spec fn spec_systems(&self) -> Seq<BoxedSystem<V>> {
        self.systems@
    }

    /// A schedule with no system.
    pub fn new() -> (r: Self)
        ensures
            r.spec_systems().len() == 0,
    {
        Schedule { systems: Vec::new() }
    }

    /// Registers `system` to run after every system registered before it.
    pub fn add_system<S: System<V> + 'static>(&mut self, system: S)
        ensures
            final(self).spec_systems().len() == old(self).spec_systems().len() + 1,
            final(self).spec_systems().subrange(0, old(self).spec_systems().len() as int)
                == old(self).spec_systems(),
    {
        let boxed: Box<dyn System<V>> = Box::new(system);
        let entry = BoxedSystem { system: boxed };
        append_one(&mut self.systems, entry);
    }

    /// Runs every registered system once on `registry`, in registration
    /// order, each on the registry that the one before left. Before a system
    /// runs, each resource it declares mandatory must be stored; the run stops
    /// at the first system for which one is missing, with `MissingResource`
    /// naming the first such key.
    pub fn run_systems(&self, registry: &mut Registry<V>) -> (r: Result<(), RecsError>)
        requires
            old(registry).wf(),
        ensures
            final(registry).wf(),
            self.spec_systems().len() == 0 ==> r is Ok && *final(registry) == *old(registry),
            exists|regs: Seq<Registry<V>>, n: int|
                #[trigger] ran_in_order(self.spec_systems(), regs, n) && regs[0] == *old(registry)
                    && regs[n] == *final(registry) && (r is Ok <==> n == self.spec_systems().len())
                    && (r is Err ==> exists|k: usize|
                    #[trigger] first_missing(regs[n], self.spec_systems()[n].required(), k) && r
                        == Err::<(), RecsError>(RecsError::MissingResource(k))),
    {
        let ghost start = *registry;
        let ghost regs: Seq<Registry<V>> = seq![start];
        let mut i: usize = 0;
        while i < self.systems.len()
            invariant
                registry.wf(),
                i <= self.systems@.len(),
                ran_in_order(self.systems@, regs, i as int),
                regs[0] == start,
                regs[i as int] == *registry,
                start == *old(registry),
            decreases self.systems@.len() - i,
        {
            let system = &self.systems[i].system;
            match registry.missing_resource(system.required_resources()) {
                Some(k) => {
                    proof {
                        assert(first_missing(regs[i as int], self.spec_systems()[i as int].required(), k));
                        assert(ran_in_order(self.spec_systems(), regs, i as int));
                    }
                    return Err(RecsError::MissingResource(k));
                },
                None => {},
            }
            proof {
                assert(all_present(*registry, self.systems@[i as int].required()));
            }
            let ghost cur = *registry;
            let mut taken = Registry::new();
            std::mem::swap(&mut taken, registry);
            let ghost given = taken;
            let after = system.run(taken);
            proof {
                assert(given == cur);
                assert(system.spec_run(given, after));
                assert(self.systems@[i as int].runs(cur, after));
                let next = regs.push(after);
                assert forall|j: int| 0 <= j < i + 1 implies #[trigger] self.systems@[j].runs(next[j], next[j + 1]) by {
                    if j < i {
                        assert(next[j] == regs[j] && next[j + 1] == regs[j + 1]);
                        assert(self.systems@[j].runs(regs[j], regs[j + 1]));
                    } else {
                        assert(next[j] == cur && next[j + 1] == after);
                    }
                }
                assert forall|j: int| 0 <= j < i + 1 implies #[trigger] all_present(next[j], self.systems@[j].required()) by {
                    if j < i {
                        assert(next[j] == regs[j]);
                        assert(all_present(regs[j], self.systems@[j].required()));
                    } else {
                        assert(next[j] == cur);
                    }
                }
                assert(ran_in_order(self.systems@, next, i + 1));
                regs = next;
            }
            *registry = after;
            i = i + 1;
        }
        proof {
            assert(ran_in_order(self.spec_systems(), regs, i as int));
        }
        Ok(())
    }

    /// Unregisters every system.
    pub fn clear_systems(&mut self)
        ensures
            final(self).spec_systems().len() == 0,
    {
        self.systems.clear();
    }

    /// The number of registered systems.
    pub fn system_count(&self) -> (r: usize)
        ensures
            r == self.spec_systems().len(),
    {
        self.systems.len()
    }
}

} // verus!
