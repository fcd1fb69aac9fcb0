//! Core of a trip-planning backend: typed identifiers, filter and
//! partial-update builders, an in-memory document store model, the
//! event/trip/user repositories, and the role-based authorization gate.

pub mod auth;
pub mod error;
pub mod event;
pub mod ids;
pub mod role;
pub mod store;
pub mod text;
pub mod trip;
pub mod upload;
pub mod user;
