//! A named-channel relay: one part of a program hands a payload to a named
//! channel, and whatever receiver is attached under that name gets it.
//!
//! The core is [`service::ElsewhereService`], a registry from channel names
//! to notification sinks. A payload sent to a name with an attached sink is
//! delivered at once; a payload sent to a vacant name is buffered (one per
//! name, last write wins) and handed over when a receiver attaches. The
//! registry never panics and reports every anomaly — a duplicate
//! registration, a spurious unregistration, an overwritten buffered
//! payload — in its result, so a caller can surface it.
//!
//! The sink and payload types are opaque to the registry: callers choose
//! them, and whatever performs the actual delivery (for instance a UI
//! framework callback) lives outside this crate.

pub mod service;
pub mod table;

pub use service::ElsewhereService;
pub use service::RegisterOutcome;
pub use service::SendOutcome;
pub use service::UnregisterOutcome;
pub use table::NameTable;
