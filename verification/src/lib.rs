//! Capacity-limited event signup: events with named roles and optional
//! flavors, a store of events, and the conversational protocols that
//! configure an event and let users join or leave it.

pub mod dialog;
pub mod errors;
pub mod event;
pub mod flows;
pub mod schedule;
pub mod seq_util;
pub mod session;
pub mod store;
pub mod text;

use vstd::prelude::*;

verus! {

} // verus!
