//! A CalDAV client library that keeps a local replica of remote calendar
//! collections and reconciles both sides with a bidirectional sync.
//!
//! The sync engine, the per-item sync-status state machine, the local
//! calendars and the iCal property codec are verified with Verus.

pub mod cache;
pub mod calendar;
pub mod config;
pub mod error;
pub mod event;
pub mod ical;
pub mod item;
pub mod mock_behaviour;
pub mod property;
pub mod provider;
pub mod task;
pub mod time;
pub mod traits;
pub mod utils;

pub use event::Event;
pub use item::Item;
pub use task::Task;
