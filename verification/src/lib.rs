//! Core of a dead man's switch monitoring service.
//!
//! External jobs ping a monitor identified by a slug; when a ping does not
//! arrive within the monitor's interval the check cycle sends an alert
//! through a notification sink, and a recovery notice once pings resume.
//! This crate holds the verified monitor model, status derivation, store
//! semantics, alert state machine, message formatting and retry discipline;
//! transport (HTTP, storage engine, sink) lives outside.

pub mod alerts;
pub mod api;
pub mod cycle;
pub mod interval;
pub mod model;
pub mod retry;
pub mod slug;
pub mod store;
pub mod text;
