//! An entity-component-system runtime: generational entity handles, dense
//! per-type component storage, a multi-component query engine, singleton
//! resources and systems run once per tick.

pub mod entity;
pub mod error;
pub mod component;
pub mod resource;
pub mod registry;
pub mod query;
pub mod system;
