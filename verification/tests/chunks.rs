//! Chunk pools, chunk builders and sealed chunks.
use paged_alloc::mmap::os_page_size;
use paged_alloc::{
    AlignedBuf, ChunkFull, ChunkPool, HeapSource, Ledger, MmapSource, PageBuf, PagePool,
    PageSource, Tenant,
};

#[test]
fn chunk_alloc_seal_and_read() {
    let mut ledger = Ledger::new();
    let mut pool = ChunkPool::with_page_size(16 * 1024);
    let tenant = Tenant::new(&mut ledger, "t");

    let mut b = pool.allocate(&mut ledger, &tenant, 11);
    assert_eq!(b.capacity(), 11);
    b.append(&mut pool, b"hello ").unwrap();
    b.append(&mut pool, b"world").unwrap();
    assert_eq!(b.len(), 11);

    let chunk = b.seal(&mut pool);
    assert_eq!(chunk.as_slice(&pool), b"hello world");
    assert_eq!(chunk.capacity(), 11);
    assert_eq!(chunk.len(), 11);

    assert_eq!(tenant.stats(&ledger).chunks_in_use(), 1);
    assert_eq!(tenant.stats(&ledger).total_chunks_allocated(), 1);
    assert_eq!(tenant.stats(&ledger).bytes_in_use(), 11);
}

#[test]
fn chunk_small_packs_into_shared_page() {
    // Pages are 16 KiB, threshold is 8 KiB. Ten 64-byte chunks should
    // all land in one underlying page.
    let mut ledger = Ledger::new();
    let mut pool = ChunkPool::with_page_size(16 * 1024);
    let tenant = Tenant::new(&mut ledger, "t");

    let mut chunks = Vec::new();
    for i in 0..10 {
        let mut b = pool.allocate(&mut ledger, &tenant, 64);
        b.as_mut_slice(&mut pool)[0] = i as u8;
        b.set_len(64);
        chunks.push(b.seal(&mut pool));
    }

    // Exactly 1 underlying page: 1 heap allocation.
    assert_eq!(pool.page_stats().allocations_from_heap(), 1);
    assert_eq!(pool.stats().packed_allocations(), 10);
    assert_eq!(pool.stats().dedicated_allocations(), 0);
    assert_eq!(pool.stats().oversized_allocations(), 0);

    for (i, c) in chunks.iter().enumerate() {
        assert_eq!(c.as_slice(&pool)[0], i as u8);
        assert_eq!(c.len(), 64);
    }
}

#[test]
fn chunk_dedicated_takes_whole_page() {
    let mut ledger = Ledger::new();
    let mut pool = ChunkPool::with_page_size(16 * 1024);
    let tenant = Tenant::new(&mut ledger, "t");

    // 10 KiB > threshold (8 KiB) so this goes to the dedicated path.
    let c1 = pool.allocate(&mut ledger, &tenant, 10 * 1024).seal(&mut pool);
    let c2 = pool.allocate(&mut ledger, &tenant, 10 * 1024).seal(&mut pool);

    assert_eq!(pool.stats().dedicated_allocations(), 2);
    assert_eq!(pool.stats().packed_allocations(), 0);
    assert_eq!(pool.page_stats().allocations_from_heap(), 2);
    c1.release(&mut pool, &mut ledger);
    c2.release(&mut pool, &mut ledger);
    assert_eq!(pool.page_stats().free_pages(), 2);
}

#[test]
fn chunk_oversized_bypasses_pool() {
    let mut ledger = Ledger::new();
    let mut pool = ChunkPool::with_page_size(16 * 1024);
    let tenant = Tenant::new(&mut ledger, "t");

    let size = 64 * 1024; // 4 times the page size
    let chunk = pool.allocate(&mut ledger, &tenant, size).seal(&mut pool);
    assert_eq!(chunk.capacity(), size);

    assert_eq!(pool.stats().oversized_allocations(), 1);
    assert_eq!(pool.stats().oversized_bytes_in_use(), size as u64);
    // Underlying page pool was not touched.
    assert_eq!(pool.page_stats().allocations_from_heap(), 0);
    assert_eq!(pool.page_stats().pages_in_use(), 0);

    chunk.release(&mut pool, &mut ledger);
    assert_eq!(pool.stats().oversized_bytes_in_use(), 0);
    assert_eq!(pool.stats().chunks_in_use(), 0);
}

#[test]
fn chunk_drop_decrements_stats() {
    let mut ledger = Ledger::new();
    let mut pool = ChunkPool::with_page_size(16 * 1024);
    let tenant = Tenant::new(&mut ledger, "t");
    let c = pool.allocate(&mut ledger, &tenant, 128).seal(&mut pool);
    assert_eq!(pool.stats().chunks_in_use(), 1);
    assert_eq!(tenant.stats(&ledger).chunks_in_use(), 1);
    assert_eq!(tenant.stats(&ledger).bytes_in_use(), 128);
    c.release(&mut pool, &mut ledger);
    assert_eq!(pool.stats().chunks_in_use(), 0);
    assert_eq!(tenant.stats(&ledger).chunks_in_use(), 0);
    assert_eq!(tenant.stats(&ledger).bytes_in_use(), 0);
    // Total is monotonic, stays at 1.
    assert_eq!(tenant.stats(&ledger).total_chunks_allocated(), 1);
}

#[test]
fn chunk_clone_shares_ref_count() {
    let mut ledger = Ledger::new();
    let mut pool = ChunkPool::with_page_size(16 * 1024);
    let tenant = Tenant::new(&mut ledger, "t");
    let c1 = pool.allocate(&mut ledger, &tenant, 64).seal(&mut pool);
    let c2 = c1.clone(&mut pool);
    let c3 = c1.clone(&mut pool);
    assert_eq!(c1.ref_count(&pool), 3);
    // In-use is a per-chunk concept, not per-handle: 3 handles = 1 chunk.
    assert_eq!(tenant.stats(&ledger).chunks_in_use(), 1);
    c1.release(&mut pool, &mut ledger);
    c2.release(&mut pool, &mut ledger);
    assert_eq!(tenant.stats(&ledger).chunks_in_use(), 1);
    c3.release(&mut pool, &mut ledger);
    assert_eq!(tenant.stats(&ledger).chunks_in_use(), 0);
}

#[test]
fn chunk_builder_drop_unsealed_releases_stats() {
    let mut ledger = Ledger::new();
    let mut pool = ChunkPool::with_page_size(16 * 1024);
    let tenant = Tenant::new(&mut ledger, "t");
    {
        let b = pool.allocate(&mut ledger, &tenant, 256);
        assert_eq!(tenant.stats(&ledger).chunks_in_use(), 1);
        assert_eq!(tenant.stats(&ledger).bytes_in_use(), 256);
        b.release(&mut pool, &mut ledger);
    }
    assert_eq!(tenant.stats(&ledger).chunks_in_use(), 0);
    assert_eq!(tenant.stats(&ledger).bytes_in_use(), 0);
    // The allocation happened, and the total keeps it.
    assert_eq!(tenant.stats(&ledger).total_chunks_allocated(), 1);
}

#[test]
fn chunk_zero_size() {
    let mut ledger = Ledger::new();
    let mut pool = ChunkPool::with_page_size(16 * 1024);
    let tenant = Tenant::new(&mut ledger, "t");

    let c = pool.allocate(&mut ledger, &tenant, 0).seal(&mut pool);
    assert_eq!(c.len(), 0);
    assert_eq!(c.capacity(), 0);
    assert!(c.as_slice(&pool).is_empty());
    // No underlying page allocation for zero-size chunks.
    assert_eq!(pool.page_stats().allocations_from_heap(), 0);
}

#[test]
fn chunk_alloc_from_copy_in() {
    let mut ledger = Ledger::new();
    let mut pool = ChunkPool::with_page_size(16 * 1024);
    let tenant = Tenant::new(&mut ledger, "t");
    let c = pool.alloc_from(&mut ledger, &tenant, b"hello world");
    assert_eq!(c.as_slice(&pool), b"hello world");
    assert_eq!(c.len(), 11);
}

#[test]
fn chunk_packing_rolls_to_next_page_when_full() {
    // 16 KiB page, threshold 8 KiB. Four 4 KiB chunks exactly fill
    // one page; the fifth has to roll to a new page.
    let mut ledger = Ledger::new();
    let mut pool = ChunkPool::with_page_size(16 * 1024);
    let tenant = Tenant::new(&mut ledger, "t");

    let _a = pool.allocate(&mut ledger, &tenant, 4096).seal(&mut pool);
    let _b = pool.allocate(&mut ledger, &tenant, 4096).seal(&mut pool);
    let _c = pool.allocate(&mut ledger, &tenant, 4096).seal(&mut pool);
    let _d = pool.allocate(&mut ledger, &tenant, 4096).seal(&mut pool);
    // Four chunks still fit in the first page.
    assert_eq!(pool.page_stats().allocations_from_heap(), 1);
    let _e = pool.allocate(&mut ledger, &tenant, 4096).seal(&mut pool);
    // Fifth rolls to a new page.
    assert_eq!(pool.page_stats().allocations_from_heap(), 2);
    assert_eq!(pool.stats().packed_allocations(), 5);
}

#[test]
fn chunk_packed_page_retains_until_last_chunk_drops() {
    let mut ledger = Ledger::new();
    let mut pool = ChunkPool::with_page_size(16 * 1024);
    let tenant = Tenant::new(&mut ledger, "t");
    let a = pool.allocate(&mut ledger, &tenant, 64).seal(&mut pool);
    let b = pool.allocate(&mut ledger, &tenant, 64).seal(&mut pool);
    let c = pool.allocate(&mut ledger, &tenant, 64).seal(&mut pool);
    assert_eq!(pool.page_stats().free_pages(), 0);

    // Give up two of three. The page must not return yet: one chunk still
    // holds it.
    a.release(&mut pool, &mut ledger);
    b.release(&mut pool, &mut ledger);
    assert_eq!(pool.page_stats().free_pages(), 0);

    // Closing gives up the cursor on the page, so only `c` holds it.
    pool.close();
    assert_eq!(pool.page_stats().free_pages(), 0);
    assert_eq!(pool.page_stats().pages_in_use(), 1);
    c.release(&mut pool, &mut ledger);
    assert_eq!(pool.page_stats().free_pages(), 1);
    assert_eq!(pool.page_stats().pages_in_use(), 0);
    pool.finish();
}

#[test]
fn chunk_prewarm_avoids_cold_path_for_first_allocs() {
    let mut ledger = Ledger::new();
    let mut pool = ChunkPool::with_page_size(16 * 1024);
    pool.prewarm(2);
    // No chunks yet but 2 pages are ready.
    assert_eq!(pool.page_stats().allocations_from_heap(), 2);
    let heap_before = pool.page_stats().allocations_from_heap();

    let tenant = Tenant::new(&mut ledger, "t");
    // Fit many small chunks: they consume one of the prewarmed pages.
    let mut sink = Vec::new();
    for _ in 0..20 {
        sink.push(pool.allocate(&mut ledger, &tenant, 64).seal(&mut pool));
    }
    assert_eq!(pool.page_stats().allocations_from_heap(), heap_before);
}

#[test]
fn chunk_aligned_allocation_pads_packed_offset() {
    let mut ledger = Ledger::new();
    let mut pool = ChunkPool::with_page_size(16 * 1024);
    let tenant = Tenant::new(&mut ledger, "t");

    // Start with a 3-byte chunk; cursor becomes 3.
    let _a = pool.allocate(&mut ledger, &tenant, 3).seal(&mut pool);
    // Request 64-byte-aligned allocation. Cursor advances to 64 first,
    // wasting 61 bytes, then claims 64 bytes.
    let mut b = pool.allocate_aligned(&mut ledger, &tenant, 64, 64);
    b.set_len(0);
    // Check that the buffer pointer we got is 64-aligned.
    let ptr = b.as_mut_slice(&mut pool).as_mut_ptr() as usize;
    assert_eq!(ptr % 64, 0, "aligned allocation must be 64-byte aligned");
    let _ = b.seal(&mut pool);
}

#[test]
fn chunk_oversized_alignment_via_layout() {
    let mut ledger = Ledger::new();
    let mut pool = ChunkPool::with_page_size(16 * 1024);
    let tenant = Tenant::new(&mut ledger, "t");
    let mut b = pool.allocate_aligned(&mut ledger, &tenant, 64 * 1024, 4096);
    let ptr = b.as_mut_slice(&mut pool).as_mut_ptr() as usize;
    assert_eq!(ptr % 4096, 0);
    b.set_len(0);
    let _ = b.seal(&mut pool);
}

#[test]
fn chunk_append_overflow_returns_error() {
    let mut ledger = Ledger::new();
    let mut pool = ChunkPool::with_page_size(16 * 1024);
    let tenant = Tenant::new(&mut ledger, "t");
    let mut b = pool.allocate(&mut ledger, &tenant, 8);
    b.append(&mut pool, b"1234").unwrap();
    let err = b.append(&mut pool, b"56789").unwrap_err();
    assert_eq!(err.capacity, 8);
    assert_eq!(err.len, 4);
    assert_eq!(err.attempted, 5);
    assert_eq!(b.as_slice(&pool), b"1234");
    assert_eq!(b.remaining(), 4);
}

#[test]
fn chunk_full_says_what_happened() {
    let err = ChunkFull { capacity: 8, len: 4, attempted: 5 };
    assert_eq!(
        err.message(),
        "chunk full: attempted to append 5 bytes to chunk with 4/8 used"
    );
}

/// A source of pages for which a mapping is laid out, kept on the heap.
struct MappedPages {
    layout: MmapSource,
    os_page: usize,
}

impl MappedPages {
    fn new(page_size: usize) -> Self {
        let os_page = os_page_size(4096);
        MappedPages { layout: MmapSource::new(page_size, os_page), os_page }
    }
}

impl PageSource for MappedPages {
    type Buf = AlignedBuf;

    fn page_size(&self) -> usize {
        self.layout.page_size()
    }

    fn allocate(&mut self) -> AlignedBuf {
        AlignedBuf::new(self.layout.page_size(), self.os_page)
    }

    fn release(&mut self, _buf: AlignedBuf) {}

    fn prefault(&mut self, buf: &mut AlignedBuf) {
        let bytes = buf.as_mut_slice();
        for offset in self.layout.touch_points() {
            bytes[offset] = 0;
        }
    }
}

#[test]
fn chunk_pool_with_mmap_source() {
    let mut ledger = Ledger::new();
    let mut pool = ChunkPool::with_source(MappedPages::new(16 * 1024));
    pool.prewarm(4);

    let tenant = Tenant::new(&mut ledger, "t");

    // Allocate enough small chunks to exercise packing and rollover.
    let mut chunks = Vec::new();
    for i in 0..32 {
        let data = vec![i as u8; 128];
        chunks.push(pool.alloc_from(&mut ledger, &tenant, &data));
    }

    assert_eq!(pool.stats().packed_allocations(), 32);
    assert_eq!(tenant.stats(&ledger).chunks_in_use(), 32);

    // Round-trip content check.
    for (i, c) in chunks.iter().enumerate() {
        assert_eq!(c.len(), 128);
        assert_eq!(c.as_slice(&pool)[0], i as u8);
        assert_eq!(c.as_slice(&pool)[127], i as u8);
    }

    // Give up everything and confirm counters clear.
    for c in chunks {
        c.release(&mut pool, &mut ledger);
    }
    assert_eq!(tenant.stats(&ledger).chunks_in_use(), 0);
    assert_eq!(tenant.stats(&ledger).bytes_in_use(), 0);
}

#[test]
fn chunk_page_and_chunk_stats_are_independent() {
    // A tenant's chunk counters and page counters advance on different
    // APIs and must not interfere.
    let mut ledger = Ledger::new();
    let mut pages = PagePool::new(4096);
    let mut chunks = ChunkPool::with_page_size(16 * 1024);
    let tenant = Tenant::new(&mut ledger, "t");

    let _p = pages.allocate(&mut ledger, &tenant).seal(pages.shared_mut());
    let _c = chunks.alloc_from(&mut ledger, &tenant, &[0u8; 128]);

    assert_eq!(tenant.stats(&ledger).pages_in_use(), 1);
    assert_eq!(tenant.stats(&ledger).total_pages_allocated(), 1);
    assert_eq!(tenant.stats(&ledger).chunks_in_use(), 1);
    assert_eq!(tenant.stats(&ledger).total_chunks_allocated(), 1);
    // bytes_in_use is the sum of both granularities.
    assert_eq!(tenant.stats(&ledger).bytes_in_use(), 4096 + 128);
}

#[test]
fn chunk_alloc_with_fills_buffer_and_sets_full_len() {
    let mut ledger = Ledger::new();
    let mut pool = ChunkPool::with_page_size(16 * 1024);
    let tenant = Tenant::new(&mut ledger, "t");

    let chunk = pool.alloc_with(&mut ledger, &tenant, 16, |buf: &mut [u8]| {
        assert_eq!(buf.len(), 16);
        for (i, b) in buf.iter_mut().enumerate() {
            *b = i as u8;
        }
    });

    assert_eq!(chunk.len(), 16);
    assert_eq!(chunk.capacity(), 16);
    for (i, &b) in chunk.as_slice(&pool).iter().enumerate() {
        assert_eq!(b, i as u8);
    }
    assert_eq!(tenant.stats(&ledger).chunks_in_use(), 1);
    assert_eq!(tenant.stats(&ledger).bytes_in_use(), 16);
}

#[test]
fn chunk_alloc_with_len_uses_returned_length() {
    let mut ledger = Ledger::new();
    let mut pool = ChunkPool::with_page_size(16 * 1024);
    let tenant = Tenant::new(&mut ledger, "t");

    let chunk = pool.alloc_with_len(&mut ledger, &tenant, 32, |buf: &mut [u8]| {
        let msg = b"variable";
        buf[..msg.len()].copy_from_slice(msg);
        msg.len()
    });

    assert_eq!(chunk.len(), 8);
    assert_eq!(chunk.capacity(), 32);
    assert_eq!(chunk.as_slice(&pool), b"variable");
    // Tenant is charged for the requested capacity, not the logical len.
    assert_eq!(tenant.stats(&ledger).bytes_in_use(), 32);
}

#[test]
fn chunk_alloc_with_zero_size_calls_closure_with_empty_slice() {
    let mut ledger = Ledger::new();
    let mut pool = ChunkPool::with_page_size(16 * 1024);
    let tenant = Tenant::new(&mut ledger, "t");
    let chunk = pool.alloc_with(&mut ledger, &tenant, 0, |buf: &mut [u8]| {
        assert!(buf.is_empty());
    });
    assert_eq!(chunk.len(), 0);
    assert!(chunk.as_slice(&pool).is_empty());
}

#[test]
fn size_decides_how_a_chunk_is_served() {
    let mut ledger = Ledger::new();
    let mut pool = ChunkPool::with_page_size(64);
    let tenant = Tenant::new(&mut ledger, "t");
    assert_eq!(pool.page_size(), 64);
    assert_eq!(pool.pack_threshold(), 32);

    let sizes = [0, 1, 32, 33, 64, 65];
    let mut chunks = Vec::new();
    for size in sizes {
        let c = pool.alloc_with(&mut ledger, &tenant, size, |buf: &mut [u8]| {
            for b in buf.iter_mut() {
                *b = 0x5a;
            }
        });
        assert_eq!(c.len(), size);
        chunks.push(c);
    }
    assert_eq!(pool.stats().total_chunks(), 6);
    assert_eq!(pool.stats().chunks_in_use(), 6);
    assert_eq!(pool.stats().packed_allocations(), 2);
    assert_eq!(pool.stats().dedicated_allocations(), 2);
    assert_eq!(pool.stats().oversized_allocations(), 1);
    assert_eq!(pool.stats().oversized_bytes_in_use(), 65);
    assert_eq!(pool.page_stats().pages_in_use(), 3);
    assert_eq!(tenant.stats(&ledger).bytes_in_use(), 195);
    for (c, size) in chunks.iter().zip(sizes) {
        assert!(c.as_slice(&pool).iter().all(|&b| b == 0x5a));
        assert_eq!(c.as_slice(&pool).len(), size);
    }
    for c in chunks {
        c.release(&mut pool, &mut ledger);
    }
    assert_eq!(pool.stats().chunks_in_use(), 0);
    assert_eq!(pool.stats().total_chunks(), 6);
    assert_eq!(tenant.stats(&ledger).peak_bytes_in_use(), 195);
    // The open page is still the pool's; the dedicated ones came back.
    assert_eq!(pool.page_stats().pages_in_use(), 1);
    assert_eq!(pool.page_stats().free_pages(), 2);
}

#[test]
fn an_empty_open_page_is_recycled_when_it_is_replaced() {
    let mut ledger = Ledger::new();
    let mut pool = ChunkPool::with_page_size(64);
    let tenant = Tenant::new(&mut ledger, "t");
    let a = pool.allocate(&mut ledger, &tenant, 30).seal(&mut pool);
    let b = pool.allocate(&mut ledger, &tenant, 30).seal(&mut pool);
    a.release(&mut pool, &mut ledger);
    b.release(&mut pool, &mut ledger);
    // The page has no chunks left, but no room either: it is given up, and the
    // next page is the same one.
    let _c = pool.allocate(&mut ledger, &tenant, 30).seal(&mut pool);
    assert_eq!(pool.page_stats().allocations_from_heap(), 1);
    assert_eq!(pool.page_stats().return_queue_drains(), 1);
    assert_eq!(pool.page_stats().pages_in_use(), 1);
    assert_eq!(pool.page_stats().free_pages(), 0);
}

#[test]
fn released_space_on_the_open_page_is_not_reused() {
    let mut ledger = Ledger::new();
    let mut pool = ChunkPool::with_page_size(64);
    let tenant = Tenant::new(&mut ledger, "t");
    let a = pool.allocate(&mut ledger, &tenant, 32);
    a.release(&mut pool, &mut ledger);
    let b = pool.allocate(&mut ledger, &tenant, 32).seal(&mut pool);
    // The first half stays claimed, so the third request needs another page.
    let _c = pool.allocate(&mut ledger, &tenant, 32).seal(&mut pool);
    assert_eq!(pool.page_stats().pages_in_use(), 2);
    b.release(&mut pool, &mut ledger);
    assert_eq!(pool.page_stats().pages_in_use(), 1);
}

#[test]
fn writes_leave_neighbours_alone() {
    let mut ledger = Ledger::new();
    let mut pool = ChunkPool::with_page_size(1024);
    let tenant = Tenant::new(&mut ledger, "t");
    let a = pool.alloc_from(&mut ledger, &tenant, b"left");
    let mut m = pool.allocate(&mut ledger, &tenant, 5);
    let c = pool.alloc_from(&mut ledger, &tenant, b"right");
    for b in m.as_mut_slice(&mut pool) {
        *b = 0xff;
    }
    m.set_len(5);
    let m = m.seal(&mut pool);
    assert_eq!(a.as_slice(&pool), b"left");
    assert_eq!(m.as_slice(&pool), [0xff; 5]);
    assert_eq!(c.as_slice(&pool), b"right");
    a.release(&mut pool, &mut ledger);
    assert_eq!(m.as_slice(&pool), [0xff; 5]);
    assert_eq!(c.as_slice(&pool), b"right");
}

#[test]
fn chunks_outlive_the_owner_of_their_pool() {
    let mut ledger = Ledger::new();
    let mut pool = ChunkPool::with_source(HeapSource::new(1024));
    let tenant = Tenant::new(&mut ledger, "t");
    let small = pool.alloc_from(&mut ledger, &tenant, b"small");
    let large = pool.alloc_from(&mut ledger, &tenant, &[7u8; 2000]);
    pool.close();
    let again = small.clone(&mut pool);
    small.release(&mut pool, &mut ledger);
    assert_eq!(again.as_slice(&pool), b"small");
    assert_eq!(large.as_slice(&pool), [7u8; 2000]);
    again.release(&mut pool, &mut ledger);
    large.release(&mut pool, &mut ledger);
    assert_eq!(tenant.stats(&ledger).bytes_in_use(), 0);
    let source = pool.finish();
    assert_eq!(source.page_size(), 1024);
}

#[test]
fn defaults_of_a_chunk_pool() {
    let pool = ChunkPool::new();
    assert_eq!(pool.page_size(), 16 * 1024);
    assert_eq!(ChunkPool::DEFAULT_PAGE_SIZE, 16 * 1024);
    assert_eq!(ChunkPool::DEFAULT_ALIGN, std::mem::align_of::<usize>());
    assert_eq!(pool.pack_threshold(), 8 * 1024);
    assert_eq!(ChunkPool::default().page_size(), 16 * 1024);
    assert_eq!(pool.shared().page_size(), 16 * 1024);
    let warm = ChunkPool::with_capacity(4096, 3);
    assert_eq!(warm.page_stats().free_pages(), 3);
    assert_eq!(warm.stats().total_chunks(), 0);
}

#[test]
fn chunks_are_aligned_like_pointers() {
    let mut ledger = Ledger::new();
    let mut pool = ChunkPool::with_page_size(4096);
    let tenant = Tenant::new(&mut ledger, "t");
    for size in [1, 3, 7, 9, 5000] {
        let c = pool.allocate(&mut ledger, &tenant, size).seal(&mut pool);
        let mut b = pool.allocate(&mut ledger, &tenant, size);
        assert_eq!(b.as_mut_slice(&mut pool).as_ptr() as usize % ChunkPool::DEFAULT_ALIGN, 0);
        b.release(&mut pool, &mut ledger);
        c.release(&mut pool, &mut ledger);
    }
}

#[test]
fn packed_chunks_lie_one_behind_the_other() {
    let mut ledger = Ledger::new();
    let mut pool = ChunkPool::with_page_size(1024);
    let tenant = Tenant::new(&mut ledger, "t");
    let start = |pool: &mut ChunkPool, ledger: &mut Ledger, size: usize, align: usize| {
        let mut b = pool.allocate_aligned(ledger, &tenant, size, align);
        let at = b.as_mut_slice(pool).as_ptr() as usize;
        let _ = b.seal(pool);
        at
    };
    let a = start(&mut pool, &mut ledger, 5, 8);
    let b = start(&mut pool, &mut ledger, 3, 1);
    let c = start(&mut pool, &mut ledger, 1, 16);
    let d = start(&mut pool, &mut ledger, 64, 64);
    assert_eq!(b - a, 5);
    assert_eq!(c - a, 16);
    assert_eq!(d - a, 64);
    assert_eq!(pool.page_stats().pages_in_use(), 1);
}

/// A heap source that counts its calls.
struct CountingSource {
    inner: HeapSource,
    allocated: usize,
    released: usize,
}

impl PageSource for CountingSource {
    type Buf = AlignedBuf;

    fn page_size(&self) -> usize {
        self.inner.page_size()
    }

    fn allocate(&mut self) -> AlignedBuf {
        self.allocated += 1;
        self.inner.allocate()
    }

    fn release(&mut self, buf: AlignedBuf) {
        self.released += 1;
        self.inner.release(buf)
    }

    fn prefault(&mut self, buf: &mut AlignedBuf) {
        self.inner.prefault(buf)
    }
}

#[test]
fn finishing_releases_every_page_once() {
    let source = CountingSource { inner: HeapSource::new(256), allocated: 0, released: 0 };
    let mut ledger = Ledger::new();
    let mut pool = ChunkPool::with_source(source);
    pool.prewarm(2);
    let tenant = Tenant::new(&mut ledger, "t");
    let mut chunks = Vec::new();
    for i in 0..40usize {
        chunks.push(pool.alloc_from(&mut ledger, &tenant, &vec![i as u8; 10 * i]));
    }
    for (i, c) in chunks.iter().enumerate() {
        assert_eq!(c.as_slice(&pool), vec![i as u8; 10 * i]);
    }
    pool.close();
    for c in chunks {
        c.release(&mut pool, &mut ledger);
    }
    assert_eq!(pool.stats().chunks_in_use(), 0);
    assert_eq!(pool.stats().oversized_bytes_in_use(), 0);
    assert_eq!(pool.page_stats().pages_in_use(), 0);
    let opened = pool.page_stats().allocations_from_heap() as usize;
    let source = pool.finish();
    assert_eq!(source.allocated, opened);
    assert_eq!(source.released, opened);
    assert_eq!(tenant.stats(&ledger).bytes_in_use(), 0);
}

#[test]
fn giving_up_a_chunk_restores_what_is_in_use() {
    let mut ledger = Ledger::new();
    let mut pool = ChunkPool::with_page_size(128);
    let tenant = Tenant::new(&mut ledger, "t");
    let keep = pool.alloc_from(&mut ledger, &tenant, b"keep");
    for size in [0, 8, 100, 300] {
        let c = pool.allocate(&mut ledger, &tenant, size).seal(&mut pool);
        assert_eq!(pool.stats().chunks_in_use(), 2);
        assert_eq!(tenant.stats(&ledger).bytes_in_use(), 4 + size as u64);
        c.release(&mut pool, &mut ledger);
        assert_eq!(pool.stats().chunks_in_use(), 1);
        assert_eq!(pool.stats().oversized_bytes_in_use(), 0);
        assert_eq!(tenant.stats(&ledger).bytes_in_use(), 4);
        assert_eq!(keep.as_slice(&pool), b"keep");
    }
}

#[test]
fn total_chunks_is_the_sum_of_the_classes() {
    let mut ledger = Ledger::new();
    let mut pool = ChunkPool::with_page_size(128);
    let tenant = Tenant::new(&mut ledger, "t");
    let mut chunks = Vec::new();
    let mut empty: u64 = 0;
    for i in 0..60usize {
        let size = [0, 8, 100, 300, 5, 0, 129][i % 7];
        if size == 0 {
            empty += 1;
        }
        chunks.push(pool.allocate(&mut ledger, &tenant, size).seal(&mut pool));
        if i % 3 == 0 {
            chunks.remove(0).release(&mut pool, &mut ledger);
        }
        let stats = pool.stats();
        assert_eq!(stats.total_chunks(), i as u64 + 1);
        assert_eq!(
            stats.total_chunks(),
            stats.packed_allocations()
                + stats.dedicated_allocations()
                + stats.oversized_allocations()
                + empty
        );
        assert_eq!(stats.chunks_in_use(), chunks.len() as u64);
        assert!(stats.total_chunks() >= stats.chunks_in_use());
    }
    let before = *pool.stats();
    for c in chunks {
        c.release(&mut pool, &mut ledger);
    }
    assert_eq!(pool.stats().total_chunks(), 60);
    assert_eq!(pool.stats().chunks_in_use(), 0);
    assert_eq!(pool.stats().packed_allocations(), before.packed_allocations());
    assert_eq!(pool.stats().dedicated_allocations(), before.dedicated_allocations());
    assert_eq!(pool.stats().oversized_allocations(), before.oversized_allocations());
}

#[test]
fn oversized_bytes_are_those_of_chunks_larger_than_a_page() {
    let mut ledger = Ledger::new();
    let mut pool = ChunkPool::with_page_size(128);
    let tenant = Tenant::new(&mut ledger, "t");
    let page = pool.allocate(&mut ledger, &tenant, 128).seal(&mut pool);
    let none = pool.allocate(&mut ledger, &tenant, 0).seal(&mut pool);
    let small = pool.alloc_from(&mut ledger, &tenant, b"small");
    assert_eq!(pool.stats().oversized_bytes_in_use(), 0);

    let a = pool.allocate(&mut ledger, &tenant, 129).seal(&mut pool);
    let b = pool.allocate(&mut ledger, &tenant, 500);
    assert_eq!(pool.stats().oversized_bytes_in_use(), 629);
    let a2 = a.clone(&mut pool);
    assert_eq!(pool.stats().oversized_bytes_in_use(), 629);
    a.release(&mut pool, &mut ledger);
    assert_eq!(pool.stats().oversized_bytes_in_use(), 629);
    b.release(&mut pool, &mut ledger);
    assert_eq!(pool.stats().oversized_bytes_in_use(), 129);
    page.release(&mut pool, &mut ledger);
    none.release(&mut pool, &mut ledger);
    small.release(&mut pool, &mut ledger);
    assert_eq!(pool.stats().oversized_bytes_in_use(), 129);
    a2.release(&mut pool, &mut ledger);
    assert_eq!(pool.stats().oversized_bytes_in_use(), 0);
    assert_eq!(pool.stats().oversized_allocations(), 2);
}

#[test]
fn chunks_start_at_multiples_of_their_alignment() {
    let mut ledger = Ledger::new();
    let tenant = Tenant::new(&mut ledger, "t");
    for page_size in [64, 1000, 4096, 16 * 1024] {
        let mut pool = ChunkPool::with_page_size(page_size);
        for size in [1, 3, 32, page_size / 2, page_size + 1, 3 * page_size] {
            for align in [1, 2, 4, 8, 16, 64, 128, 4096, 65536] {
                let mut b = pool.allocate_aligned(&mut ledger, &tenant, size, align);
                let bytes = b.as_mut_slice(&mut pool);
                assert_eq!(bytes.len(), size);
                assert_eq!(bytes.as_ptr() as usize % align, 0);
                bytes.fill(0xa5);
                if size % 2 == 0 {
                    b.release(&mut pool, &mut ledger);
                } else {
                    let _ = b.seal(&mut pool);
                }
            }
        }
        assert_eq!(pool.stats().packed_allocations(), 36);
        assert_eq!(pool.stats().oversized_allocations(), 18);
        assert_eq!(pool.stats().total_chunks(), 54);
    }
}

/// A source whose pages all say that they start at one address.
struct FixedSource {
    address: usize,
}

impl PageSource for FixedSource {
    type Buf = AlignedBuf;

    fn page_size(&self) -> usize {
        1024
    }

    fn allocate(&mut self) -> AlignedBuf {
        AlignedBuf::aligned_part(vec![0; 1031], self.address, 1024, 8)
    }

    fn release(&mut self, _buf: AlignedBuf) {}

    fn prefault(&mut self, _buf: &mut AlignedBuf) {}
}

#[test]
fn padding_depends_on_where_the_page_starts() {
    let mut ledger = Ledger::new();
    let tenant = Tenant::new(&mut ledger, "t");
    let mut pool = ChunkPool::with_source(FixedSource { address: 4096 - 64 });
    let mut at = Vec::new();
    for (size, align) in [(1, 8), (100, 4096), (3, 1), (8, 128), (8, 8)] {
        let mut b = pool.allocate_aligned(&mut ledger, &tenant, size, align);
        at.push(b.as_mut_slice(&mut pool).as_ptr() as usize);
        let _ = b.seal(&mut pool);
    }
    assert_eq!(at[1] - at[0], 64);
    assert_eq!(at[2] - at[0], 164);
    assert_eq!(at[3] - at[0], 192);
    assert_eq!(at[4] - at[0], 200);
    assert_eq!(pool.page_stats().pages_in_use(), 1);
    assert_eq!(pool.stats().packed_allocations(), 5);
}

#[test]
fn a_chunk_that_no_page_can_align_is_aligned_all_the_same() {
    let mut ledger = Ledger::new();
    let tenant = Tenant::new(&mut ledger, "t");
    let mut pool = ChunkPool::with_source(FixedSource { address: 64 });
    let first = pool.alloc_from(&mut ledger, &tenant, b"first");
    let mut b = pool.allocate_aligned(&mut ledger, &tenant, 100, 4096);
    assert_eq!(b.as_mut_slice(&mut pool).as_ptr() as usize % 4096, 0);
    b.append(&mut pool, b"second").unwrap();
    let second = b.seal(&mut pool);

    // It counts as packed, not as oversized. The next page is open, and empty.
    assert_eq!(pool.stats().packed_allocations(), 2);
    assert_eq!(pool.stats().oversized_allocations(), 0);
    assert_eq!(pool.stats().oversized_bytes_in_use(), 0);
    assert_eq!(pool.page_stats().pages_in_use(), 2);
    let third = pool.alloc_from(&mut ledger, &tenant, &[7; 512]);
    assert_eq!(pool.page_stats().pages_in_use(), 2);

    assert_eq!(first.as_slice(&pool), b"first");
    assert_eq!(second.as_slice(&pool), b"second");
    assert_eq!(third.as_slice(&pool), [7; 512]);
    second.release(&mut pool, &mut ledger);
    assert_eq!(pool.stats().chunks_in_use(), 2);
    assert_eq!(pool.stats().oversized_bytes_in_use(), 0);
    assert_eq!(pool.page_stats().pages_in_use(), 2);
    assert_eq!(tenant.stats(&ledger).bytes_in_use(), 517);
}

#[test]
fn an_alignment_that_nothing_has_is_not_refused() {
    let mut ledger = Ledger::new();
    let tenant = Tenant::new(&mut ledger, "t");
    let mut pool = ChunkPool::with_page_size(1024);
    let first = pool.alloc_from(&mut ledger, &tenant, b"first");
    let mut b = pool.allocate_aligned(&mut ledger, &tenant, 16, 1 << (usize::BITS - 1));
    b.append(&mut pool, b"second").unwrap();
    let second = b.seal(&mut pool);
    assert_eq!(first.as_slice(&pool), b"first");
    assert_eq!(second.as_slice(&pool), b"second");
    assert_eq!(pool.stats().packed_allocations(), 2);
    assert_eq!(pool.page_stats().pages_in_use(), 2);
}
