//! Visibility-constraint evaluation for astronomical observations.
//!
//! The library compresses per-sample violation flags into ordered violation
//! windows, keeps the evaluated instants beside them, and answers queries on
//! that compressed form (total violated time, dense satisfaction mask, lookup
//! of one instant).  The geometric predicates that produce the flags are
//! computed by the caller.
pub mod time;
pub mod tracker;
pub mod result;
pub mod batch;
pub mod daytime;
pub mod eclipse;
pub mod epoch;
pub mod omm_cache;
pub mod text;
