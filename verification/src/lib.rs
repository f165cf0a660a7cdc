//! Core of a desktop wallpaper rotator: the plugin host protocol spoken
//! with out-of-process source providers, the wallpaper queue and bounded
//! disk cache that stage fetched candidates, and the debounced scheduler
//! and config reactor that drive both.
//!
//! The pieces, roughly inside-out: [`keys`] handles composite source keys;
//! [`candidate`] and [`hashing`] define wallpaper rows and their stable
//! ids; [`queue`] is the staging table with dedup, trimming and selection;
//! [`cache`] bounds the download directory by evicting oldest images
//! first; [`protocol`] and [`transport`] frame, parse and pace the binary
//! exchange with plugin processes, which [`registry`] owns; [`scheduler`]
//! decides when rotation cycles run and what one cycle does; [`reactor`]
//! debounces and diffs configuration changes; [`logging`] classifies
//! events; [`ipc`] and [`wallhaven`] round out the automation channel and
//! the bundled source.

use vstd::prelude::*;

pub mod cache;
pub mod candidate;
pub mod hashing;
pub mod ipc;
pub mod keys;
pub mod logging;
pub mod protocol;
pub mod queue;
pub mod reactor;
pub mod registry;
pub mod scheduler;
pub mod transport;
pub mod wallhaven;

verus! {

/// Error taxonomy of the host core. Every fallible operation of the library
/// reports one of these classes.
#[derive(Clone, Copy, Debug, PartialEq, Eq, Structural)]
pub enum HostError {
    /// Malformed, partial or timed-out plugin I/O.
    Transport,
    /// The response variant did not match the request.
    Protocol,
    /// A plugin process could not be spawned or lacked permissions.
    Process,
    /// Unknown plugin, instance or source key.
    NotFound,
    /// No eligible candidate remained after a refill.
    QueueEmpty,
    /// A queue transaction or persistence step failed.
    Storage,
    /// A wallpaper download failed.
    Network,
    /// The cache held no evictable file, so a download could not fit.
    CacheFull,
    /// The operating system rejected the wallpaper-set call.
    Platform,
}

} // verus!
