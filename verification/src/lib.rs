//! Procedural terrain core: a deterministic fixed-point noise field, a
//! terrain sampler (height, biome blend, vegetation placement), a chunk
//! mesher, and a chunk streaming registry keyed by observer position.
//!
//! All quantities are fixed-point integers with 1000 units per world unit,
//! so every function here is a total, verified function of its inputs.

pub mod chunks;
pub mod noise;
pub mod world_gen;
