//! One-way synchronization of calendar events from a source calendar to a
//! destination calendar, against a paginated remote listing API.
//!
//! The crate holds the decision logic only: the cursor-driven pagination state
//! machine, the lazy page-to-item stream semantics, and the sync reconciliation
//! that decides, for each source event, whether a destination event already
//! exists and what to create otherwise. Network transport, credentials and the
//! command line live outside the library and hand it plain values.

pub mod errors;
pub mod event;
pub mod lister;
pub mod pager;
pub mod sync;
