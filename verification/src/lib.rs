//! Crew coordination: involvement reconciliation and convenor rotation.
//!
//! The crate keeps the rules by which people are placed into crews across
//! intervals: reconciling a person's declared crew memberships against the
//! stored ones, keeping at most one convenor per crew and interval, and
//! counting how long each participant has gone without convening.
//!
//! The stores in this crate hold their rows in memory. Each operation on a
//! store is one change: it happens whole or not at all.

pub mod auth;
pub mod convenor;
pub mod crews;
pub mod entities;
pub mod links;
pub mod me;
pub mod reconcile;
pub mod reconcile_laws;
pub mod store;
