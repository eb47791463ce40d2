//! Reading and watching the state of named audio controls.
//!
//! The heart of the crate is a table of controls keyed by the address the
//! device assigns to each of them.  Description events insert or replace
//! whole records; value events replace a single record's value and hand back
//! the fully updated record so a change callback can be notified.  Around
//! the table stand the decision cores of the background watch: the polling
//! loop's state machine and the one-shot shutdown protocol of the watch
//! handle.  The embedding program supplies what a verifier cannot hold — the
//! device session, the single lock sharing the table with the polling
//! thread, the callback itself and the cancellation pipe — and takes every
//! decision by calling in here.

pub mod events;
pub mod polling;
pub mod registry;
pub mod watcher;

pub use registry::Control;
pub use registry::ControlRegistry;
pub use watcher::Watcher;
