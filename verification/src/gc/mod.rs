//! Garbage-collected heap.

pub mod header;

pub use self::header::GcHeader;
pub mod refcell;

pub use self::refcell::{BorrowState, GcBorrowError, GcBorrowMutError, GcMut, GcRef, GcRefCell};
pub mod trace;

pub use self::trace::{Gc, Trace, Tracer};
pub mod heap;

pub use self::heap::{GcBox, GcHeap, GcStats, Root};
