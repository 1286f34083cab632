//! Live view of the login sessions of this machine.
//!
//! The library holds the decisions of a session monitor: how a login record
//! becomes a published entry, how the set of watched processes follows each
//! new batch, how the monitor loop reacts to what its waits return, and what
//! the tray shows for a batch. Reading the login-record file and waiting on
//! the operating system are left to the program that drives it.
pub mod clock;
pub mod indicator;
pub mod monitor;
pub mod session;
pub mod tracker;

pub use clock::CivilTime;
pub use indicator::{indicator_icon, item_style, Icon, ItemStyle};
pub use monitor::{
    after_drain, after_wait, store_changed, token_of, AfterDrain, AfterWait, DrainRead, Message,
    MonitorError, Outbox, Step, WaitResult, STORE_TOKEN,
};
pub use session::{
    all_valid, entries_from, entry_of, is_ignored, live_entries, make_label, pids_of, Entry, Probe,
    SessionRecord,
};
pub use tracker::{Reconciliation, Tracker};
