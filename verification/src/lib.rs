//! An embeddable key-value store: table-scoped get/set/delete/scan commands
//! over a uniform storage interface, with a command dispatcher and a binary
//! wire codec for the request/response messages.

pub mod value;
pub mod error;
pub mod storage;
pub mod memory;
pub mod dispatcher;
pub mod laws;
pub mod codec;
pub mod durable;
