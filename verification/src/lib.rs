//! Typed operation and session layer for a persistent key-value store.
//!
//! The layer converts typed keys and values to and from the byte buffers the
//! storage engine works on, delivers read results through one-shot pending
//! slots, merges read-modify-write modifications into stored values, manages
//! per-thread session lifecycles, and coordinates checkpoint and recovery
//! tokens.

pub mod codec;
pub mod completion;
pub mod errors;
pub mod laws;
pub mod rmw;
pub mod session;
pub mod status;
pub mod store;
pub mod workload;
mod table;

pub use crate::codec::FasterKey;
pub use crate::codec::FasterValue;
pub use crate::completion::PendingResult;
pub use crate::errors::FasterError;
pub use crate::rmw::FasterRmw;
pub use crate::store::CheckPoint;
pub use crate::store::FasterIterator;
pub use crate::store::FasterIteratorRecord;
pub use crate::store::FasterKv;
pub use crate::store::FasterKvBuilder;
pub use crate::store::Recover;
