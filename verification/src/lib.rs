//! Procedural generation of unique trait combinations ("genes") for
//! generative artwork: a category/variant registry with weighted sampling,
//! archetype-driven forced variants, dependency and hider graphs, a seeded
//! draw source, and an append-only uniqueness ledger.
pub mod admin;
pub mod alchemy;
pub mod auth;
pub mod canonical;
pub mod display;
pub mod error;
pub mod layer;
pub mod metadata;
pub mod minter;
pub mod puzzle;
pub mod registry;
pub mod rng;
pub mod roller;
pub mod sampler;
pub mod state;
pub mod viewing_key;
