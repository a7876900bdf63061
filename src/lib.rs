//! Synchronisation engine for notes edited on several devices.
pub mod api;
pub mod codec;
pub mod laws;
pub mod live;
pub mod logging;
pub mod merge;
pub mod notes;
pub mod store;
pub mod sync;
