use vstd::prelude::*;

use crate::entity::Entity;

verus! {

/// The recoverable failures of entity and component operations.
#[derive(Debug, Clone, Copy, PartialEq, Eq, Structural)]
pub enum RecsError {
    /// The entity is no longer valid (it was destroyed or never existed).
    InvalidEntity(Entity),
    /// The entity carries no component of the type with this key.
    ComponentNotFound(usize),
    /// A system declared a mandatory dependency on the resource type with this key,
    /// and no such resource is stored.
    MissingResource(usize),
}

/// The character of decimal digit `d`.
pub open spec fn digit_char(d: nat) -> char {
    if d == 0 {
        '0'
    } else if d == 1 {
        '1'
    } else if d == 2 {
        '2'
    } else if d == 3 {
        '3'
    } else if d == 4 {
        '4'
    } else if d == 5 {
        '5'
    } else if d == 6 {
        '6'
    } else if d == 7 {
        '7'
    } else if d == 8 {
        '8'
    } else {
        '9'
    }
}

/// The decimal digits of `n`, most significant first, with no leading zero.
pub open spec fn decimal(n: nat) -> Seq<char>
    decreases n,
{
    if n < 10 {
        seq![digit_char(n)]
    } else {
        decimal(n / 10).push(digit_char(n % 10))
    }
}

/// Relies on `format!`, which writes each integer argument in decimal.
#[verifier::external_body]
fn invalid_entity_text(id: u32, generation: u32) -> (r: String)
    ensures
        r@ == "Operation on invalid entity: id="@ + decimal(id as nat) + ", generation="@
            + decimal(generation as nat),
{
    format!("Operation on invalid entity: id={}, generation={}", id, generation)
}

/// Relies on `format!`, which writes each integer argument in decimal.
#[verifier::external_body]
fn component_not_found_text(key: usize) -> (r: String)
    ensures
        r@ == "Entity does not have component with type key "@ + decimal(key as nat),
{
    format!("Entity does not have component with type key {}", key)
}

/// Relies on `format!`, which writes each integer argument in decimal.
#[verifier::external_body]
fn missing_resource_text(key: usize) -> (r: String)
    ensures
        r@ == "Resource with type key "@ + decimal(key as nat)
            + " not found. Did you forget to insert it?"@,
{
    format!("Resource with type key {} not found. Did you forget to insert it?", key)
}

impl RecsError {
    /// The human-readable description of this error.
    pub open spec fn spec_message(self) -> Seq<char> {
        match self {
            RecsError::InvalidEntity(e) => "Operation on invalid entity: id="@ + decimal(
                e.spec_id() as nat,
            ) + ", generation="@ + decimal(e.spec_generation() as nat),
            RecsError::ComponentNotFound(key) => "Entity does not have component with type key "@
                + decimal(key as nat),
            RecsError::MissingResource(key) => "Resource with type key "@ + decimal(key as nat)
                + " not found. Did you forget to insert it?"@,
        }
    }

    /// Describes this error, naming the entity or the type key concerned.
    pub fn message(&self) -> (r: String)
        ensures
            r@ == self.spec_message(),
    {
        match self {
            RecsError::InvalidEntity(e) => invalid_entity_text(e.id(), e.generation()),
            RecsError::ComponentNotFound(key) => component_not_found_text(*key),
            RecsError::MissingResource(key) => missing_resource_text(*key),
        }
    }
}

} // verus!
