//! An entity-component-system runtime driven by bit masks.
//!
//! A [`Registry`] assigns each component type a bit index. An [`Entity`] carries the mask of
//! the component types it owns; a [`GenericWorld`] stores entities by id, answers queries by
//! mask overlap, and hands the matching entities to the handler of the system at its cursor.

pub mod entity;
pub mod math;
pub mod query;
pub mod registry;
pub mod world;

pub use entity::Entity;
pub use entity::WrappedComponent;
pub use math::Bit;
pub use math::BitSet;
pub use math::Increment;
pub use query::Query;
pub use query::QueryOps;
pub use registry::BitIndex;
pub use registry::Registry;
pub use world::EntityOps;
pub use world::GenericWorld;
pub use world::PrimitiveWorld;
pub use world::Register;
pub use world::Runnable;
pub use world::System;
pub use world::World;
pub use world::WorldOps;
