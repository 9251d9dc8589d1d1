//! Verified core of a household inventory tracker.
//!
//! The crate holds the client-side reconciliation layer: the item store and
//! its derived name/id index, the fuzzy search over that index, the pure
//! decision logic of the mutation controller, the single-slot notification
//! channel, and the reconstruction of the activity log. Network and
//! rendering glue lives outside the crate; the functions here are total,
//! synchronous and verified.

pub mod controller;
pub mod date;
pub mod group;
pub mod index;
pub mod item;
pub mod logs;
pub mod notify;
pub mod numfmt;
pub mod search;
pub mod stock;
pub mod strings;
