//! An event-sourcing persistence and dispatch engine.
//!
//! The engine appends ordered groups of domain events ("commits") for many
//! independent aggregates, guarantees uniqueness along three orthogonal
//! keys per commit, rebuilds aggregate state by replaying commits in
//! order, and fans newly durable commits out to subscribers.
//!
//! The pieces: [`store`] holds the commit log contract, its conflict
//! taxonomy and a verified in-memory reference store; [`client`] is the
//! replay engine and the command pipeline; [`dispatch`] drains undelivered
//! commits to a delegate at least once; [`subscriptions`] decides the
//! fan-out of published commits; [`commit`], [`events`], [`aggregate`] and
//! [`command`] carry the data model and the caller-facing contracts.

pub mod aggregate;
pub mod client;
pub mod command;
pub mod commit;
pub mod dispatch;
pub mod events;
pub mod store;
pub mod subscriptions;
pub mod textual;
