//! A multi-client audio channel router: a fixed-capacity client registry
//! plus a shared multi-channel ring buffer. Playback clients write stereo
//! frames into their assigned channel pair, capture clients read the whole
//! bus back with stale pairs zeroed, and an out-of-band control path
//! reassigns channel pairs at any moment.
//!
//! On the device every entry point runs concurrently on host realtime
//! threads, synchronized field-by-field through atomic loads and stores.
//! This crate states and proves what each operation does to the registry and
//! the buffer as a state transition; the host adapter owns the threading and
//! the atomics discipline around it.

pub mod ipc;
pub mod laws;
pub mod process;
pub mod registry;
pub mod ring;
pub mod router;
pub mod wire;
