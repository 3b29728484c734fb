//! An in-process agent scheduler and versioned key-value store.
//!
//! The crate has three parts: a versioned, typed entry store layered over an
//! embedded ordered-byte database (`sled_store`, `fallback_entry_store`), a
//! concurrent agent scheduler modelled as a verified state machine
//! (`interface`) together with the agents it drives (`agent`), and the
//! lifecycle and plugin-host bookkeeping around them (`lifecycle`, `host`).
//! The asynchronous run loops and all I/O live outside this crate; everything
//! here is plain logic with contracts.

pub mod clock;
pub mod codec;
pub mod entry;
pub mod sled_store;
pub mod fallback_entry_store;
pub mod interface;
pub mod agent;
pub mod lifecycle;
pub mod host;
