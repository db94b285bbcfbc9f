//! Manufacture of labeled travel-time training records.
//!
//! Around every known address, sample points are cast on concentric rings,
//! resolved to their nearest catalog address through a unit-sphere embedding,
//! labeled with a travel duration obtained from a routing collaborator, and
//! assembled into pair or triplet records that a single batched sink persists.

pub mod builder;
pub mod config;
pub mod coordinator;
pub mod data_loader;
pub mod decimal;
pub mod jsonl;
pub mod models;
pub mod resolver;
pub mod sampler;
pub mod sink;
pub mod tally;
