//! Exclusive-state tagging for an entity-component store.
//!
//! A group of variant tags declared together behaves as a finite-state
//! machine per entity: a transition removes every sibling tag and inserts
//! the target tag as one deferred, atomic edit, and three predicate forms
//! (exclusive, loose, any-of-group) query the resulting state.

pub mod command;
pub mod group;
pub mod predicate;
pub mod store;
