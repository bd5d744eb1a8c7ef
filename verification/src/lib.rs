//! A verified engine for the smart-transport wire protocol used when
//! synchronizing one content-addressed repository into another.
//!
//! The crate covers the length-prefixed packet framing ("pkt-line"),
//! the capability registry, the reference-advertisement parser, the
//! fetch negotiator, the push-command emitter, the side-band pack relay,
//! and the pure decisions of the orchestrator.  All I/O is left to the
//! caller: every function here maps plain values to plain values.

pub mod advert;
pub mod bytes;
pub mod caps;
pub mod error;
pub mod fetch;
pub mod packet;
pub mod refmap;
pub mod relay;
pub mod send;
pub mod sync;
