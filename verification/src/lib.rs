//! Quote requests of TDX guests: the shared quote buffer, the messages and the
//! framing of the host's Quote Generation Service, and the KVM structures of a
//! TDX exit.
pub mod bytes;
pub mod complete;
pub mod exchange;
pub mod guest;
pub mod header;
pub mod message;
pub mod progress;
pub mod service;
pub mod take;
pub mod tdx;
pub mod worker;
