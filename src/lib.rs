//! Coalescing mail-sync work queue, filesystem change classifier and
//! dual-interval refresh scheduler.
pub mod updater;
pub mod mbsync;
pub mod timer;
pub mod watcher;
