//! The deterministic core of Herdr Flow: event-sourced workflow runs whose state is
//! always what replaying the committed events gives.

pub mod admission;
pub mod append;
pub mod belief;
pub mod biography;
pub mod canonical_json;
pub mod consequences;
pub mod contiguity;
pub mod decisions;
pub mod digest;
pub mod durability;
pub mod effects;
pub mod error;
pub mod guarantees;
pub mod history;
pub mod identifier;
pub mod integrity;
pub mod journal;
pub mod lifecycle;
pub mod model;
pub mod notation;
pub mod numeral;
pub mod pipeline;
mod query;
pub mod reading;
pub mod recovery;
pub mod registration;
pub mod rows;
pub mod scheduling;
pub mod select;
pub mod stage;
pub mod store;
pub mod writing;

use vstd::prelude::*;

pub use crate::append::{AppendOutcome, AppendStageEvent};
pub use crate::error::StoreError;
pub use crate::journal::StoredStageEvent;
pub use crate::store::SqliteStore;

verus! {

/// The base protocol implemented by this runtime.
pub const BASE_PROTOCOL: &'static str = "herdr.flow/v1";

/// The name of the base protocol.
pub fn base_protocol() -> (name: &'static str)
    ensures
        name == BASE_PROTOCOL,
        name@ == "herdr.flow/v1"@,
{
    BASE_PROTOCOL
}

} // verus!
