//! Page pools, page builders and sealed pages.
use std::cell::{Cell, RefCell};
use std::rc::Rc;

use paged_alloc::mmap::os_page_size;
use paged_alloc::{
    AlignedBuf, HeapSource, Ledger, MmapSource, PageBuf, PageFull, PagePool, PageSource, Tenant,
};

#[test]
fn alloc_seal_and_read() {
    let mut ledger = Ledger::new();
    let mut pool = PagePool::new(64);
    let tenant = Tenant::new(&mut ledger, "t");
    let mut builder = pool.allocate(&mut ledger, &tenant);
    assert_eq!(builder.capacity(), 64);
    assert!(builder.is_empty());

    builder.append(b"hello ").unwrap();
    builder.append(b"world").unwrap();
    assert_eq!(builder.len(), 11);
    assert_eq!(builder.as_slice(), b"hello world");

    let page = builder.seal(pool.shared_mut());
    assert_eq!(page.as_slice(pool.shared()), b"hello world");
    assert_eq!(page.capacity(), 64);
    assert_eq!(page.len(), 11);
}

#[test]
fn append_beyond_capacity_returns_error() {
    let mut ledger = Ledger::new();
    let mut pool = PagePool::new(16);
    let tenant = Tenant::new(&mut ledger, "t");
    let mut builder = pool.allocate(&mut ledger, &tenant);
    builder.append(b"1234").unwrap();
    let err = builder.append(b"12345678901234").unwrap_err();
    assert_eq!(err.capacity, 16);
    assert_eq!(err.len, 4);
    assert_eq!(err.attempted, 14);
    assert_eq!(builder.as_slice(), b"1234");
}

#[test]
fn page_full_says_what_happened() {
    let err = PageFull { capacity: 16, len: 4, attempted: 1040 };
    assert_eq!(
        err.message(),
        "page full: attempted to append 1040 bytes to page with 4/16 used"
    );
    assert_eq!(err, PageFull { capacity: 16, len: 4, attempted: 1040 });
}

#[test]
fn append_to_the_last_byte() {
    let mut ledger = Ledger::new();
    let mut pool = PagePool::new(16);
    let tenant = Tenant::new(&mut ledger, "t");
    let mut builder = pool.allocate(&mut ledger, &tenant);
    builder.append(b"0123456789abcdef").unwrap();
    assert_eq!(builder.remaining(), 0);
    builder.append(b"").unwrap();
    let err = builder.append(b"x").unwrap_err();
    assert_eq!(err, PageFull { capacity: 16, len: 16, attempted: 1 });
    assert_eq!(builder.as_slice(), b"0123456789abcdef");
}

#[test]
fn direct_slice_write_with_set_len() {
    let mut ledger = Ledger::new();
    let mut pool = PagePool::new(16);
    let tenant = Tenant::new(&mut ledger, "t");
    let mut builder = pool.allocate(&mut ledger, &tenant);
    builder.as_mut_slice()[..5].copy_from_slice(b"abcde");
    builder.set_len(5);
    let page = builder.seal(pool.shared_mut());
    assert_eq!(page.as_slice(pool.shared()), b"abcde");
}

#[test]
fn drop_sealed_page_recycles_buffer_locally() {
    let mut ledger = Ledger::new();
    let mut pool = PagePool::new(64);
    let tenant = Tenant::new(&mut ledger, "t");

    let page = pool.allocate(&mut ledger, &tenant).seal(pool.shared_mut());
    assert_eq!(pool.stats().pages_in_use(), 1);
    assert_eq!(pool.stats().allocations_from_heap(), 1);
    page.release(pool.shared_mut(), &mut ledger);
    // The buffer sits in the return queue; free_pages counts it but
    // pages_in_use is 0.
    assert_eq!(pool.stats().pages_in_use(), 0);
    assert_eq!(pool.stats().free_pages(), 1);

    // Second allocation should reuse, not heap-allocate.
    let _page2 = pool.allocate(&mut ledger, &tenant).seal(pool.shared_mut());
    assert_eq!(pool.stats().allocations_from_heap(), 1);
    assert_eq!(pool.stats().free_pages(), 0);
    assert_eq!(pool.stats().pages_in_use(), 1);
    assert_eq!(pool.stats().return_queue_drains(), 1);
}

#[test]
fn drop_unsealed_builder_recycles_buffer() {
    let mut ledger = Ledger::new();
    let mut pool = PagePool::new(64);
    let tenant = Tenant::new(&mut ledger, "t");
    {
        let builder = pool.allocate(&mut ledger, &tenant);
        assert_eq!(tenant.stats(&ledger).pages_in_use(), 1);
        builder.release(pool.shared_mut(), &mut ledger);
    }
    assert_eq!(tenant.stats(&ledger).pages_in_use(), 0);
    assert_eq!(pool.stats().free_pages(), 1);
    assert_eq!(pool.stats().pages_in_use(), 0);
}

#[test]
fn tenant_stats_track_bytes_and_peak() {
    let mut ledger = Ledger::new();
    let mut pool = PagePool::new(128);
    let tenant = Tenant::new(&mut ledger, "t");
    let p1 = pool.allocate(&mut ledger, &tenant).seal(pool.shared_mut());
    let p2 = pool.allocate(&mut ledger, &tenant).seal(pool.shared_mut());
    assert_eq!(tenant.stats(&ledger).pages_in_use(), 2);
    assert_eq!(tenant.stats(&ledger).bytes_in_use(), 256);
    assert_eq!(tenant.stats(&ledger).peak_bytes_in_use(), 256);
    assert_eq!(tenant.stats(&ledger).total_pages_allocated(), 2);

    p1.release(pool.shared_mut(), &mut ledger);
    assert_eq!(tenant.stats(&ledger).pages_in_use(), 1);
    assert_eq!(tenant.stats(&ledger).bytes_in_use(), 128);
    assert_eq!(tenant.stats(&ledger).peak_bytes_in_use(), 256);

    p2.release(pool.shared_mut(), &mut ledger);
    assert_eq!(tenant.stats(&ledger).pages_in_use(), 0);
    assert_eq!(tenant.stats(&ledger).bytes_in_use(), 0);
    assert_eq!(tenant.stats(&ledger).peak_bytes_in_use(), 256);
    assert_eq!(tenant.stats(&ledger).total_pages_allocated(), 2);
}

#[test]
fn cloning_page_keeps_stats_until_last_drop() {
    let mut ledger = Ledger::new();
    let mut pool = PagePool::new(64);
    let tenant = Tenant::new(&mut ledger, "t");
    let p1 = pool.allocate(&mut ledger, &tenant).seal(pool.shared_mut());
    let p2 = p1.clone(pool.shared_mut());
    let p3 = p1.clone(pool.shared_mut());
    assert_eq!(p1.ref_count(pool.shared()), 3);
    assert_eq!(tenant.stats(&ledger).pages_in_use(), 1);
    assert_eq!(pool.stats().pages_in_use(), 1);

    p1.release(pool.shared_mut(), &mut ledger);
    p2.release(pool.shared_mut(), &mut ledger);
    assert_eq!(tenant.stats(&ledger).pages_in_use(), 1);
    assert_eq!(pool.stats().pages_in_use(), 1);
    assert_eq!(p3.ref_count(pool.shared()), 1);

    p3.release(pool.shared_mut(), &mut ledger);
    assert_eq!(tenant.stats(&ledger).pages_in_use(), 0);
    assert_eq!(pool.stats().free_pages(), 1);
}

#[test]
fn buffers_reused_across_tenants() {
    let mut ledger = Ledger::new();
    let mut pool = PagePool::new(64);
    let a = Tenant::new(&mut ledger, "a");
    let b = Tenant::new(&mut ledger, "b");

    let page_a = pool.allocate(&mut ledger, &a).seal(pool.shared_mut());
    page_a.release(pool.shared_mut(), &mut ledger);
    assert_eq!(pool.stats().free_pages(), 1);

    let _page_b = pool.allocate(&mut ledger, &b).seal(pool.shared_mut());
    assert_eq!(pool.stats().allocations_from_heap(), 1);

    assert_eq!(a.stats(&ledger).pages_in_use(), 0);
    assert_eq!(a.stats(&ledger).total_pages_allocated(), 1);
    assert_eq!(b.stats(&ledger).pages_in_use(), 1);
    assert_eq!(b.stats(&ledger).total_pages_allocated(), 1);
}

#[test]
fn returned_page_waits_until_the_owner_runs_out() {
    let mut ledger = Ledger::new();
    let mut pool = PagePool::new(64);
    let tenant = Tenant::new(&mut ledger, "t");

    let page = pool.allocate(&mut ledger, &tenant).seal(pool.shared_mut());
    assert_eq!(pool.stats().pages_in_use(), 1);
    assert_eq!(pool.stats().free_pages(), 0);
    page.release(pool.shared_mut(), &mut ledger);
    assert_eq!(pool.stats().pages_in_use(), 0);
    assert_eq!(pool.stats().free_pages(), 1);
    assert_eq!(pool.stats().return_queue_drains(), 0);
    assert_eq!(pool.local_free_pages(), 0);

    let _page2 = pool.allocate(&mut ledger, &tenant).seal(pool.shared_mut());
    assert_eq!(pool.stats().return_queue_drains(), 1);
    assert_eq!(pool.stats().allocations_from_heap(), 1);
}

#[test]
fn the_page_returned_last_is_taken_first() {
    let mut ledger = Ledger::new();
    let mut pool = PagePool::new(64);
    let tenant = Tenant::new(&mut ledger, "t");
    let first = pool.alloc_from(&mut ledger, &tenant, b"first");
    let second = pool.alloc_from(&mut ledger, &tenant, b"second");
    first.release(pool.shared_mut(), &mut ledger);
    second.release(pool.shared_mut(), &mut ledger);
    assert_eq!(pool.stats().free_pages(), 2);

    let mut b = pool.allocate(&mut ledger, &tenant);
    assert_eq!(&b.as_mut_slice()[..6], b"second");
    assert_eq!(pool.local_free_pages(), 1);
    let mut c = pool.allocate(&mut ledger, &tenant);
    assert_eq!(&c.as_mut_slice()[..5], b"first");
    assert_eq!(pool.stats().return_queue_drains(), 1);
    assert_eq!(pool.stats().allocations_from_heap(), 2);
}

#[test]
fn many_pages_through_one_buffer() {
    let mut ledger = Ledger::new();
    let mut pool = PagePool::new(64);
    let tenant = Tenant::new(&mut ledger, "t");
    for i in 0..500usize {
        let mut b = pool.allocate(&mut ledger, &tenant);
        let byte = (i & 0xff) as u8;
        b.as_mut_slice()[0] = byte;
        b.set_len(1);
        let p = b.seal(pool.shared_mut());
        assert_eq!(p.as_slice(pool.shared())[0], byte);
        p.release(pool.shared_mut(), &mut ledger);
    }
    assert_eq!(tenant.stats(&ledger).total_pages_allocated(), 500);
    assert_eq!(tenant.stats(&ledger).pages_in_use(), 0);
    assert_eq!(pool.stats().allocations_from_heap(), 1);
}

#[test]
fn prewarm_populates_free_list() {
    let mut ledger = Ledger::new();
    let mut pool = PagePool::new(64);
    assert_eq!(pool.stats().free_pages(), 0);
    assert_eq!(pool.stats().prewarmed_pages(), 0);

    pool.prewarm(10);
    assert_eq!(pool.stats().free_pages(), 10);
    assert_eq!(pool.stats().prewarmed_pages(), 10);
    assert_eq!(pool.stats().allocations_from_heap(), 10);
    assert_eq!(pool.local_free_pages(), 10);

    // The next 10 allocations hit the local free list only.
    let tenant = Tenant::new(&mut ledger, "t");
    let mut pages = Vec::new();
    for _ in 0..10 {
        pages.push(pool.allocate(&mut ledger, &tenant).seal(pool.shared_mut()));
    }
    assert_eq!(pool.stats().allocations_from_heap(), 10);
    assert_eq!(pool.stats().pages_in_use(), 10);
    assert_eq!(pool.stats().free_pages(), 0);

    // The 11th forces a fresh heap allocation.
    pages.push(pool.allocate(&mut ledger, &tenant).seal(pool.shared_mut()));
    assert_eq!(pool.stats().allocations_from_heap(), 11);
}

#[test]
fn with_capacity_combines_new_and_prewarm() {
    let pool = PagePool::with_capacity(64, 32);
    assert_eq!(pool.stats().free_pages(), 32);
    assert_eq!(pool.stats().prewarmed_pages(), 32);
    assert_eq!(pool.local_free_pages(), 32);
}

/// Counts of the calls that a source got.
#[derive(Clone)]
struct Calls {
    allocated: Rc<Cell<usize>>,
    released: Rc<Cell<usize>>,
    prefaulted: Rc<Cell<usize>>,
}

impl Calls {
    fn new() -> Self {
        Calls {
            allocated: Rc::new(Cell::new(0)),
            released: Rc::new(Cell::new(0)),
            prefaulted: Rc::new(Cell::new(0)),
        }
    }
}

/// A source that records every call to `allocate`, `release` and `prefault`.
struct RecordingSource {
    inner: HeapSource,
    calls: Calls,
}

impl PageSource for RecordingSource {
    type Buf = AlignedBuf;

    fn page_size(&self) -> usize {
        self.inner.page_size()
    }

    fn allocate(&mut self) -> AlignedBuf {
        self.calls.allocated.set(self.calls.allocated.get() + 1);
        self.inner.allocate()
    }

    fn release(&mut self, buf: AlignedBuf) {
        self.calls.released.set(self.calls.released.get() + 1);
        self.inner.release(buf)
    }

    fn prefault(&mut self, buf: &mut AlignedBuf) {
        self.calls.prefaulted.set(self.calls.prefaulted.get() + 1);
        let bytes = buf.as_mut_slice();
        let mut offset = 0;
        while offset < bytes.len() {
            bytes[offset] = 0;
            offset += 4096;
        }
    }
}

#[test]
fn prewarm_calls_prefault_on_every_page() {
    let calls = Calls::new();
    let source = RecordingSource { inner: HeapSource::new(64), calls: calls.clone() };

    let mut ledger = Ledger::new();
    let mut pool = PagePool::with_source(source);
    pool.prewarm(25);
    assert_eq!(calls.allocated.get(), 25);
    assert_eq!(calls.prefaulted.get(), 25);
    assert_eq!(calls.released.get(), 0);

    // Consume 25 pages, release them, close the pool. Every buffer must be
    // released exactly once.
    let tenant = Tenant::new(&mut ledger, "t");
    let mut pages = Vec::new();
    for _ in 0..25 {
        pages.push(pool.allocate(&mut ledger, &tenant).seal(pool.shared_mut()));
    }
    for page in pages {
        page.release(pool.shared_mut(), &mut ledger);
    }
    let shared = pool.close();
    shared.close();
    assert_eq!(calls.allocated.get(), 25);
    assert_eq!(calls.released.get(), 25);
}

/// A source that records on which memory it was called.
struct PlaceSource {
    inner: HeapSource,
    allocated: Rc<RefCell<Vec<usize>>>,
    prefaulted: Rc<RefCell<Vec<usize>>>,
}

impl PageSource for PlaceSource {
    type Buf = AlignedBuf;

    fn page_size(&self) -> usize {
        self.inner.page_size()
    }

    fn allocate(&mut self) -> AlignedBuf {
        let buf = self.inner.allocate();
        self.allocated.borrow_mut().push(buf.as_slice().as_ptr() as usize);
        buf
    }

    fn release(&mut self, buf: AlignedBuf) {
        self.inner.release(buf)
    }

    fn prefault(&mut self, buf: &mut AlignedBuf) {
        self.prefaulted.borrow_mut().push(buf.as_slice().as_ptr() as usize);
        self.inner.prefault(buf)
    }
}

#[test]
fn prewarm_prefaults_each_new_page_once() {
    let allocated = Rc::new(RefCell::new(Vec::new()));
    let prefaulted = Rc::new(RefCell::new(Vec::new()));
    let mut pool = PagePool::with_source(PlaceSource {
        inner: HeapSource::new(64),
        allocated: allocated.clone(),
        prefaulted: prefaulted.clone(),
    });
    pool.prewarm(0);
    assert_eq!(pool.stats().prewarmed_pages(), 0);
    pool.prewarm(10);
    pool.prewarm(15);
    let places = allocated.borrow().clone();
    assert_eq!(places.len(), 25);
    assert_eq!(*prefaulted.borrow(), places);
    let mut distinct = places.clone();
    distinct.sort();
    distinct.dedup();
    assert_eq!(distinct.len(), 25);
    assert_eq!(pool.stats().allocations_from_heap(), 25);
    assert_eq!(pool.stats().free_pages(), 25);
    assert_eq!(pool.stats().prewarmed_pages(), 25);
    assert_eq!(pool.stats().pages_in_use(), 0);
    assert_eq!(pool.stats().return_queue_drains(), 0);
    assert_eq!(pool.local_free_pages(), 25);

    // The page committed last is taken first.
    let mut ledger = Ledger::new();
    let tenant = Tenant::new(&mut ledger, "t");
    for place in places.iter().rev() {
        let b = pool.allocate(&mut ledger, &tenant);
        assert_eq!(b.as_slice().as_ptr() as usize, *place);
    }
    assert_eq!(allocated.borrow().len(), 25);

    // A page that is not prewarmed is not prefaulted.
    let _b = pool.allocate(&mut ledger, &tenant);
    assert_eq!(allocated.borrow().len(), 26);
    assert_eq!(prefaulted.borrow().len(), 25);
}

#[test]
fn returned_pages_are_taken_again_last_first() {
    let allocated = Rc::new(RefCell::new(Vec::new()));
    let prefaulted = Rc::new(RefCell::new(Vec::new()));
    let mut pool = PagePool::with_source(PlaceSource {
        inner: HeapSource::new(64),
        allocated: allocated.clone(),
        prefaulted: prefaulted.clone(),
    });
    let mut ledger = Ledger::new();
    let tenant = Tenant::new(&mut ledger, "t");
    let p = pool.allocate(&mut ledger, &tenant);
    let q = pool.allocate(&mut ledger, &tenant);
    let places = allocated.borrow().clone();
    assert_eq!(p.as_slice().as_ptr() as usize, places[0]);
    assert_eq!(q.as_slice().as_ptr() as usize, places[1]);
    assert_ne!(places[0], places[1]);

    p.release(pool.shared_mut(), &mut ledger);
    q.release(pool.shared_mut(), &mut ledger);
    assert_eq!(pool.local_free_pages(), 0);
    assert_eq!(pool.stats().pages_in_use(), 0);
    assert_eq!(pool.stats().free_pages(), 2);

    let first = pool.allocate(&mut ledger, &tenant);
    let second = pool.allocate(&mut ledger, &tenant);
    assert_eq!(first.as_slice().as_ptr() as usize, places[1]);
    assert_eq!(second.as_slice().as_ptr() as usize, places[0]);
    assert_eq!(pool.stats().return_queue_drains(), 1);
    assert_eq!(pool.stats().allocations_from_heap(), 2);
    assert_eq!(pool.stats().pages_in_use(), 2);
    assert_eq!(pool.stats().free_pages(), 0);
    assert_eq!(allocated.borrow().len(), 2);
    assert!(prefaulted.borrow().is_empty());
}

#[test]
fn an_aligned_part_starts_at_the_first_multiple() {
    for (base, skip) in [(16, 0), (17, 7), (13, 3), (15, 1), (0, 0), (usize::MAX - 11, 4)] {
        let mem: Vec<u8> = (0..11).collect();
        let buf = AlignedBuf::aligned_part(mem, base, 4, 8);
        assert_eq!(buf.as_slice(), [skip, skip + 1, skip + 2, skip + 3]);
        assert_eq!(buf.first_byte(), base + skip as usize);
    }
    let buf = AlignedBuf::aligned_part(vec![5, 6, 7], 12345, 3, 1);
    assert_eq!(buf.as_slice(), [5, 6, 7]);
    let buf = AlignedBuf::aligned_part(vec![0; 63], 65, 0, 64);
    assert!(buf.as_slice().is_empty());
}

#[test]
fn closing_releases_what_is_on_the_return_queue() {
    let calls = Calls::new();
    let source = RecordingSource { inner: HeapSource::new(64), calls: calls.clone() };
    let mut ledger = Ledger::new();
    let mut pool = PagePool::with_source(source);
    let tenant = Tenant::new(&mut ledger, "t");
    let page = pool.allocate(&mut ledger, &tenant).seal(pool.shared_mut());
    page.release(pool.shared_mut(), &mut ledger);
    pool.close().close();
    assert_eq!(calls.allocated.get(), 1);
    assert_eq!(calls.released.get(), 1);
}

#[test]
fn a_page_outlives_the_owner_of_its_pool() {
    let calls = Calls::new();
    let source = RecordingSource { inner: HeapSource::new(64), calls: calls.clone() };
    let mut ledger = Ledger::new();
    let mut pool = PagePool::with_source(source);
    let tenant = Tenant::new(&mut ledger, "t");
    pool.prewarm(3);
    let page = pool.alloc_from(&mut ledger, &tenant, b"still here");
    let mut shared = pool.close();
    assert_eq!(calls.released.get(), 2);
    assert_eq!(page.as_slice(&shared), b"still here");
    assert_eq!(shared.stats().pages_in_use(), 1);
    assert_eq!(shared.page_size(), 64);
    page.release(&mut shared, &mut ledger);
    assert_eq!(calls.released.get(), 2);
    shared.close();
    assert_eq!(calls.released.get(), 3);
    assert_eq!(tenant.stats(&ledger).pages_in_use(), 0);
}

/// A source of pages for which a mapping is laid out, kept on the heap.
struct MappedPages {
    layout: MmapSource,
    os_page: usize,
}

impl MappedPages {
    fn new(page_size: usize) -> Self {
        let os_page = os_page_size(4096);
        MappedPages { layout: MmapSource::new(page_size, os_page), os_page }
    }
}

impl PageSource for MappedPages {
    type Buf = AlignedBuf;

    fn page_size(&self) -> usize {
        self.layout.page_size()
    }

    fn allocate(&mut self) -> AlignedBuf {
        AlignedBuf::new(self.layout.page_size(), self.os_page)
    }

    fn release(&mut self, _buf: AlignedBuf) {}

    fn prefault(&mut self, buf: &mut AlignedBuf) {
        let bytes = buf.as_mut_slice();
        for offset in self.layout.touch_points() {
            bytes[offset] = 0;
        }
    }
}

#[test]
fn mmap_source_end_to_end() {
    let mut ledger = Ledger::new();
    let mut pool = PagePool::with_source(MappedPages::new(16 * 1024));
    pool.prewarm(4);
    assert_eq!(pool.stats().prewarmed_pages(), 4);

    let tenant = Tenant::new(&mut ledger, "t");
    let mut builder = pool.allocate(&mut ledger, &tenant);
    builder.append(b"mmap-backed").unwrap();
    let page = builder.seal(pool.shared_mut());
    assert_eq!(page.as_slice(pool.shared()), b"mmap-backed");
    page.release(pool.shared_mut(), &mut ledger);

    assert_eq!(tenant.stats(&ledger).pages_in_use(), 0);
    assert_eq!(pool.stats().pages_in_use(), 0);
    assert_eq!(pool.stats().free_pages(), 4);
}

#[test]
fn page_alloc_from_copies_data() {
    let mut ledger = Ledger::new();
    let mut pool = PagePool::new(4096);
    let tenant = Tenant::new(&mut ledger, "t");
    let page = pool.alloc_from(&mut ledger, &tenant, b"block 42");
    assert_eq!(page.as_slice(pool.shared()), b"block 42");
    assert_eq!(page.len(), 8);
    assert_eq!(page.capacity(), 4096);
}

#[test]
fn page_alloc_from_nothing() {
    let mut ledger = Ledger::new();
    let mut pool = PagePool::new(64);
    let tenant = Tenant::new(&mut ledger, "t");
    let page = pool.alloc_from(&mut ledger, &tenant, b"");
    assert!(page.is_empty());
    assert_eq!(page.as_slice(pool.shared()), b"");
    assert_eq!(tenant.stats(&ledger).bytes_in_use(), 64);
}

#[test]
fn page_alloc_with_fills_whole_page_sets_full_len() {
    let mut ledger = Ledger::new();
    let mut pool = PagePool::new(4096);
    let tenant = Tenant::new(&mut ledger, "t");
    let page = pool.alloc_with(&mut ledger, &tenant, |buf: &mut [u8]| {
        buf[..5].copy_from_slice(b"hello");
    });
    assert_eq!(page.len(), 4096);
    assert_eq!(page.capacity(), 4096);
    assert_eq!(&page.as_slice(pool.shared())[..5], b"hello");
    // A page from the source is zero where nothing was written.
    assert!(page.as_slice(pool.shared())[5..].iter().all(|&b| b == 0));
}

#[test]
fn page_alloc_with_len_uses_returned_length() {
    let mut ledger = Ledger::new();
    let mut pool = PagePool::new(4096);
    let tenant = Tenant::new(&mut ledger, "t");
    let page = pool.alloc_with_len(&mut ledger, &tenant, |buf: &mut [u8]| {
        let msg = b"short";
        buf[..msg.len()].copy_from_slice(msg);
        msg.len()
    });
    assert_eq!(page.len(), 5);
    assert_eq!(page.capacity(), 4096);
    assert_eq!(page.as_slice(pool.shared()), b"short");
}

#[test]
fn heap_pages_start_at_cache_lines() {
    let mut source = HeapSource::new(100);
    let mut kept = Vec::new();
    for _ in 0..20 {
        let mut buf = source.allocate();
        assert_eq!(buf.as_slice().len(), 100);
        assert_eq!(buf.as_slice().as_ptr() as usize % 64, 0);
        assert_eq!(buf.as_slice().as_ptr() as usize, buf.first_byte());
        assert_eq!(buf.as_mut_slice().as_ptr() as usize % 64, 0);
        assert!(buf.as_slice().iter().all(|&b| b == 0));
        buf.as_mut_slice()[99] = 7;
        assert_eq!(buf.as_slice()[99], 7);
        kept.push(buf);
    }
    for buf in kept {
        source.release(buf);
    }
}

#[test]
fn writing_to_one_page_leaves_the_others() {
    let mut ledger = Ledger::new();
    let mut pool = PagePool::new(32);
    let tenant = Tenant::new(&mut ledger, "t");
    let a = pool.alloc_from(&mut ledger, &tenant, b"aaaa");
    let mut b = pool.allocate(&mut ledger, &tenant);
    for byte in b.as_mut_slice() {
        *byte = 0xff;
    }
    let c = pool.alloc_from(&mut ledger, &tenant, b"cccc");
    assert_eq!(a.as_slice(pool.shared()), b"aaaa");
    assert_eq!(c.as_slice(pool.shared()), b"cccc");
    b.release(pool.shared_mut(), &mut ledger);
    assert_eq!(a.as_slice(pool.shared()), b"aaaa");
}

#[test]
fn pages_out_and_free_make_up_all_pages() {
    let mut ledger = Ledger::new();
    let mut pool = PagePool::with_capacity(32, 3);
    let tenant = Tenant::new(&mut ledger, "t");
    let mut held = Vec::new();
    for i in 0..6 {
        held.push(pool.alloc_from(&mut ledger, &tenant, &[i as u8]));
        if i % 3 == 2 {
            let page = held.remove(0);
            page.release(pool.shared_mut(), &mut ledger);
        }
        let stats = pool.stats();
        assert_eq!(stats.allocations_from_heap(), stats.pages_in_use() + stats.free_pages());
        assert_eq!(stats.pages_in_use(), held.len() as u64);
    }
    // No page was given out while it was held.
    assert_eq!(held.len(), 4);
    for (page, first) in held.iter().zip([2u8, 3, 4, 5]) {
        assert_eq!(page.as_slice(pool.shared()), [first]);
    }
}

#[test]
fn appending_in_parts_is_appending_at_once() {
    let mut ledger = Ledger::new();
    let mut pool = PagePool::new(32);
    let tenant = Tenant::new(&mut ledger, "t");
    let mut a = pool.allocate(&mut ledger, &tenant);
    a.append(b"one").unwrap();
    a.append(b"two").unwrap();
    let mut b = pool.allocate(&mut ledger, &tenant);
    b.append(b"onetwo").unwrap();
    assert_eq!(a.as_slice(), b.as_slice());
    assert_eq!(a.as_mut_slice(), b.as_mut_slice());
}

#[test]
fn a_sealed_page_and_a_builder_are_given_up_alike() {
    let mut ledger = Ledger::new();
    let tenant = Tenant::new(&mut ledger, "t");
    let mut sealed = PagePool::new(32);
    let page = sealed.allocate(&mut ledger, &tenant).seal(sealed.shared_mut());
    page.release(sealed.shared_mut(), &mut ledger);
    let mut unsealed = PagePool::new(32);
    let builder = unsealed.allocate(&mut ledger, &tenant);
    builder.release(unsealed.shared_mut(), &mut ledger);
    assert_eq!(sealed.stats().pages_in_use(), unsealed.stats().pages_in_use());
    assert_eq!(sealed.stats().free_pages(), unsealed.stats().free_pages());
    assert_eq!(tenant.stats(&ledger).bytes_in_use(), 0);
}
