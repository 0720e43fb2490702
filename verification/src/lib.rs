//! Identity-and-hierarchy framework with a slot-based storage engine and a
//! bounded, adaptive-replacement-style cache.
//!
//! The crate is organised around five layers:
//! - `traits`: the identity model (`Id` / `Key` / `Data` contracts);
//! - `topology`: parent/child relations and fully-qualified name resolution;
//! - `store`: the free-list-backed slot table with its two indices;
//! - `cache`: the cache capability and its adaptive-replacement implementation;
//! - `engine`: the composition of store and cache with eviction cascade.
//!
//! `domain` instantiates the framework for the platform's entities, and
//! `roles` and `config` carry the administrative bit-sets and settings the
//! surrounding services consume.

pub mod cache;
pub mod config;
pub mod domain;
pub mod engine;
mod idgen;
pub mod roles;
pub mod store;
pub mod topology;
pub mod traits;
