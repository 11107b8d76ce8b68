//! A reader-writer spin lock that can live inside the memory it protects.
//!
//! The lock is one 64-bit word. [`word`] gives the word its meaning and holds the
//! decisions that are taken on it; [`backoff`] counts the spins of a waiting thread;
//! [`state`] holds the word itself, the steps that are taken on it and the record of
//! what is done to it; [`phase`] says which operations an acquisition makes, in which
//! order; [`spin_rwlock`] and [`intrusive`] are the locks. [`conduct`] proves what a
//! single call does, [`protocol`] what holds when any number of acquisitions interleave,
//! [`sections`] what this does for the protected data, and [`liveness`] what happens in
//! the end.

pub mod backoff;
pub mod conduct;
pub mod intrusive;
pub mod liveness;
pub mod phase;
pub mod protocol;
pub mod sections;
pub mod spin_rwlock;
pub mod state;
pub mod word;
