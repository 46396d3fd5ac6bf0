//! Core of a multi-tenant leaderboard service.
//!
//! Client applications submit per-user scores keyed by `(appid, rank_key)`.
//! The crate holds the verified heart of the service: the timestamp-perturbed
//! score encoding, the sorted in-memory ranking index, the durable-store
//! model, the configuration registry with its replication step, the
//! request-signing check, and the admin decision logic. I/O transports
//! (HTTP, RPC, the real database and index servers) live outside and hand
//! plain values in and out.

pub mod board;
pub mod clock;
pub mod codec;
pub mod config_service;
pub mod crypto;
pub mod dto;
pub mod durable;
pub mod errors;
pub mod index_store;
pub mod keys;
pub mod rank_service;
pub mod registry;
pub mod repository;
pub mod signature;
pub mod text;
