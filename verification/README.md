# paged_alloc

A paged memory allocator for thread-per-core database engines, written in Verus:
what each function does is stated in its contract and proved.

- `PagePool` allocates pages of one size. Pages that are given back are recycled;
  the source of memory is asked only when none is free.
- `ChunkPool` allocates chunks of any size on top of it: small chunks are packed
  into shared pages, larger ones get a page of their own, and those larger than a
  page get a heap allocation.
- Every allocation is charged to a `Tenant`, whose counters stand in a `Ledger`.

## Using it

Builders and sealed handles are plain values. They are used together with the pool
that they came from, and are given up by calling `release`:

```rust
use paged_alloc::{ChunkPool, Ledger, Tenant};

let mut ledger = Ledger::new();
let mut pool = ChunkPool::new();
let tenant = Tenant::new(&mut ledger, "file-cache");

let chunk = pool.alloc_from(&mut ledger, &tenant, b"hello world");
assert_eq!(chunk.as_slice(&pool), b"hello world");
assert_eq!(tenant.stats(&ledger).bytes_in_use(), 11);
chunk.release(&mut pool, &mut ledger);
```

## Layout

- `src/tenant.rs`: tenants, their counters, and the ledger.
- `src/source.rs`, `src/memory.rs`: where pages come from, and what they are.
- `src/mmap.rs`: what to ask the operating system for when pages are mapped.
- `src/pool.rs`, `src/page.rs`: the page pool and its pages.
- `src/packing.rs`: the model of a chunk pool and its invariant.
- `src/chunk.rs`: the chunk pool and its chunks.
- `src/laws.rs`: what holds of the library as a whole.
- `src/slots.rs`, `src/tally.rs`, `src/counter.rs`, `src/text.rs`: tables of shared
  values, sums, counters and numbers in messages.
- `app/`: handles that give themselves up when dropped, pools shared by threads,
  errors that print, and pages mapped from the operating system.
