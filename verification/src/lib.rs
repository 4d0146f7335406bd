//! A verified price-publishing registry.
//!
//! Authorized data providers publish a numeric price for a named trading
//! pair, tagged with the host-clock reading at the time of the write, and
//! readers query the latest price, its publication time, its publisher, and
//! whether the record is still fresh. The registry holds exactly one record
//! per pair: a successful write creates the record or overwrites all of its
//! fields at once, and no operation ever removes a record.
//!
//! The host environment (the persistent store, the clock, and the
//! authorization verifier) is kept outside: every operation takes the values
//! it needs from the host — the clock reading and the outcome of the
//! authorization check — as plain arguments, so the registry's behaviour is
//! a pure function of its state and those inputs.

pub mod laws;
pub mod registry;
