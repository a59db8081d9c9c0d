//! Local replica of remote calendar collections: the data model, the
//! recurrence expander and the reconciliation rules that keep the replica
//! consistent with the remote source.

pub mod cache;
pub mod cli;
pub mod clock;
pub mod datetime;
pub mod ical;
pub mod models;
pub mod range;
pub mod recurrence;
pub mod store;
pub mod strings;
pub mod sync;
