use vstd::prelude::*;

use crate::component::Component;

verus! {

/// A request for the entities that carry a component of every listed type.
///
/// The list is built at run time, one component type key at a time. A query
/// yields entities, not references: the components of each row are then read
/// or updated through the registry's borrow-checked accessors, so no two live
/// references into one store can conflict.
pub struct Query {
    keys: Vec<usize>,
}

impl Query {
    /// The requested component type keys.
    pub closed spec fn spec_keys(&self) -> Seq<usize> {
        self.keys@
    }

    /// A query that requests no component type.
    pub fn new() -> (r: Self)
        ensures
            r.spec_keys() == Seq::<usize>::empty(),
    {
        Query { keys: Vec::new() }
    }

    /// This query, also requesting component type `C`.
    pub fn with<V, C: Component<V>>(self) -> (r: Self)
        ensures
            r.spec_keys() == self.spec_keys().push(C::spec_type_key()),
    {
        self.with_key(C::type_key())
    }

    /// This query, also requesting the component type with key `key`.
    pub fn with_key(self, key: usize) -> (r: Self)
        ensures
            r.spec_keys() == self.spec_keys().push(key),
    {
        let mut keys = self.keys;
        keys.push(key);
        Query { keys }
    }

    /// The requested component type keys.
    pub fn keys(&self) -> (r: &[usize])
        ensures
            r@ == self.spec_keys(),
    {
        self.keys.as_slice()
    }
}

} // verus!
