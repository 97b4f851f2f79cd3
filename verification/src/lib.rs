//! An entity-component world with a sandboxed-script bookkeeping layer.
//!
//! The world stores entities in a slot-based container with generational
//! identifiers, so a stale identifier never resolves to another entity's
//! data.  Around it stand a tag interner, an entity builder, the script
//! instance registries and handle table, the per-frame script pass state
//! machine, the host-side component accessors scripts call through, the
//! framing of log messages read from a script's linear memory, and the
//! instantiation of scene descriptions into the world.
//!
//! Scalar component data (positions, colors, camera parameters) is carried
//! as IEEE-754 single-precision bit patterns in `u32` fields; the embedding
//! application converts at the boundary.

pub mod components;
pub mod entity;
pub mod marshal;
pub mod scene;
pub mod scripts;
pub mod system;
pub mod tag;
pub mod world;
