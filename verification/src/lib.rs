//! A snapshot-consistent read and iteration layer over a key-value store
//! that is partitioned into column families, with typed accessors for
//! fixed-width integers and structured messages.
//!
//! The contracts of the layer are the traits [`Peekable`], [`Iterable`] and
//! [`Mutable`], stated over the model in [`store`]. [`MemEngine`] and
//! [`Snapshot`] keep them in memory.

pub mod codec;
pub mod error;
pub mod iterable;
pub mod keys;
pub mod laws;
pub mod mem;
pub mod memtable;
pub mod message;
pub mod mutable;
pub mod options;
pub mod peekable;
pub mod snapshot;
pub mod store;

pub use crate::error::Error;
pub use crate::iterable::{Cursor, Iterable};
pub use crate::mem::{MemCursor, MemEngine};
pub use crate::mutable::Mutable;
pub use crate::options::{IterOption, ReadOpts};
pub use crate::peekable::Peekable;
pub use crate::snapshot::{Snapshot, SyncSnapshot};
