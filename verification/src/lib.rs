//! Persistent, authorization-gated domain store for a collaborative-music
//! platform: users, projects, tracks, collaborations and NFTs, with
//! ownership and percentage-accounting invariants enforced on every
//! mutating operation.

pub mod auth;
pub mod collaborations;
pub mod ids;
pub mod laws;
pub mod keyed;
pub mod nfts;
pub mod projects;
pub mod storage;
pub mod types;
