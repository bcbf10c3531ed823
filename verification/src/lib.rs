//! Core logic of a minimal instant-messaging relay built on Nostr events:
//! event and filter models, an ordered key/value store and the event storage
//! over it, per-connection state, message handling decisions, SIWE checks,
//! upload validation and garbage collection.

pub mod text;
pub mod store;
pub mod keyed;
pub mod event;
pub mod filter;
pub mod error;
pub mod storage;
pub mod state;
pub mod message;
pub mod auth;
pub mod handler;
pub mod gc;
pub mod upload;
pub mod config;
pub mod metrics;
pub mod mesh;
