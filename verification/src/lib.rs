//! A paged memory allocator for thread-per-core database engines.
//!
//! Two layers are offered:
//!
//! - [`ChunkPool`] allocates chunks of any size. Small chunks are packed together
//!   into recycled pages, larger ones get a page of their own, and those larger
//!   than a page come from the global allocator.
//! - [`PagePool`] allocates pages of one fixed size.
//!
//! A pool belongs to one worker. What is allocated is filled through a builder and
//! sealed into an immutable, counted handle: a [`Chunk`] or a [`Page`]. With the
//! last handle the memory returns to its pool. Every allocation is charged to a
//! [`Tenant`], whose counters stand in a [`Ledger`].
//!
//! Builders and handles are plain values. They are used together with the pool
//! that they came from, which holds the memory, and they are given up by calling
//! `release`. The contracts say what each call does to the pool and the ledger;
//! the [`effects`] say it in plain numbers, and the [`laws`] say what follows for the
//! library as a whole.

pub mod aligned;
pub mod chunk;
pub mod counter;
pub mod effects;
pub mod laws;
pub mod memory;
pub mod mmap;
pub mod packing;
pub mod page;
pub mod pool;
pub mod slots;
pub mod source;
pub mod tally;
pub mod tenant;
pub mod text;

pub use chunk::{Chunk, ChunkBuilder, ChunkFull, ChunkPool, ChunkPoolStats};
pub use memory::{AlignedBuf, PageBuf};
pub use mmap::{HugePageSource, MmapSource};
pub use page::{Page, PageBuilder, PageFull};
pub use pool::{PagePool, PoolShared, PoolStats};
pub use source::{HeapSource, PageSource};
pub use tenant::{Ledger, Tenant, TenantId, TenantStats};
