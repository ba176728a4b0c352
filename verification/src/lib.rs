//! Core rules engine for a turn-based tabletop combat tracker.
//!
//! The library models bounded resource counters ([`meter::Meter`]), the
//! health/incapacitation state machine ([`status::Status`]), class and level
//! based attack-rating lookup ([`classes::Classes`]), the combatant aggregate
//! ([`combatant::Combatant`]) and the roster that orders and prunes
//! participants each round ([`roster::Roster`]). It performs no I/O itself;
//! a front end feeds it parsed operator commands and reads back snapshots.

pub mod abilities;
pub mod autosave;
pub mod classes;
pub mod combatant;
pub mod meter;
pub mod roster;
pub mod status;
pub mod text;
