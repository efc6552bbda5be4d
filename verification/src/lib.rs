//! Persistence and tag generation for OAuth2-style credential artifacts.
//!
//! The crate keeps client registrations, one-time authorization codes and
//! access/refresh token pairs in a key-value store, and derives
//! collision-free token strings from a monotonic usage counter held under a
//! reserved key of the same store.

pub mod errors;
pub mod records;
pub mod store;
pub mod typed;
pub mod tags;
pub mod registrar;
pub mod authorizer;
pub mod issuer;
pub mod laws;
pub mod web;
