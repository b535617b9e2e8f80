//! Core of a collaborative retrospective-board service.
//!
//! Users join a shared retro session, add and edit cards in lanes, vote,
//! and advance a workflow step; every mutation is persisted and then
//! broadcast to the subscribers of the affected retro.  This crate holds
//! the verified state-synchronization core: the entity model, the
//! in-memory persistence backend, the event fan-out, and the mutation
//! coordinator that ties a write to exactly one published event.

pub mod bus;
pub mod config;
pub mod errors;
pub mod events;
pub mod laws;
pub mod model;
pub mod mutations;
pub mod service;
pub mod store;
