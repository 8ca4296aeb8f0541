//! Allocation of chunks of any size, on top of a page pool.
//!
//! A request is served by its size: up to half a page it is packed with others
//! into a shared page; up to a page it gets a page of its own; beyond that it gets
//! a heap allocation of its own. However it is served, a chunk is one contiguous
//! run of bytes.
use vstd::prelude::*;
#[allow(unused_imports)]
use vstd::arithmetic::power2::is_pow2;

use crate::counter::{count_down, count_up};
use crate::memory::{window_mut, write_at, AlignedBuf, PageBuf};
use crate::pool::{PagePool, PoolShared, PoolStats, RawPage};
use crate::slots::Slots;
use crate::source::{HeapSource, POINTER_SIZE, PageSource};
use crate::tenant::{Ledger, Tenant};
use crate::text::full_message;
#[allow(unused_imports)]
use crate::memory::{layout_fits, site, spliced};
#[allow(unused_imports)]
use crate::packing::{
    after_chunk_close, after_chunk_release, aligned_as_served, aligned_offset, allocated, alone,
    chunk_content, chunk_ok, chunk_ok_but, claim_bytes, claim_ok, counted, has_room, heap_align,
    lemma_aligned_as_served, lemma_allocated, lemma_chunk_close, lemma_chunk_release,
    lemma_claim_update, lemma_nothing_out, lemma_opened_page, lemma_prewarmed, lemma_retired,
    lemma_sealed_chunk, lemma_with_bytes, lemma_with_claim, lemma_with_heap, lemma_with_packed,
    lemma_with_page, lemma_without_claim, lemma_without_handle, made_more, new_claim, next_offset,
    opened_page, others_kept, page_for, pointer_align, retired, sealed_well, served_from_heap,
    size_class, with_bytes, with_chunk_handle, with_claim, with_handle, with_heap, with_packed,
    with_page, with_seal, without_claim, without_handle, BufferView, ChunkCounters, ChunkPoolView,
    ClaimView, ClassCounts, OpenView, Origin, SizeClass,
};
#[allow(unused_imports)]
use crate::pool::{opened_pool, prewarmed};
#[allow(unused_imports)]
use crate::slots::{live, Slot};
#[allow(unused_imports)]
use crate::source::{heap_page_align, heap_page_size, SourceLog};
#[allow(unused_imports)]
use crate::tally::place;
#[allow(unused_imports)]
use crate::tenant::{charged, ledger_after_allocate, ledger_after_release, Grain};
#[allow(unused_imports)]
use crate::text::full_text;

verus! {

/// Returned when an append would overflow a chunk's capacity.
#[derive(Debug, Clone, Copy, PartialEq, Eq, Structural)]
pub struct ChunkFull {
    pub capacity: usize,
    pub len: usize,
    pub attempted: usize,
}

impl ChunkFull {
    /// The error in words.
    pub fn message(&self) -> (s: String)
        ensures
            s@ == full_text(
                "chunk full: attempted to append "@,
                " bytes to chunk with "@,
                self.attempted as nat,
                self.len as nat,
                self.capacity as nat,
            ),
    {
        full_message(
            "chunk full: attempted to append ",
            " bytes to chunk with ",
            self.attempted,
            self.len,
            self.capacity,
        )
    }
}

// ---------------------------------------------------------------------------
// Counters
// ---------------------------------------------------------------------------
/// Chunk-level counters of a pool.
#[derive(Clone, Copy, Debug)]
pub struct ChunkPoolStats {
    total_chunks: u64,
    chunks_in_use: u64,
    packed_allocations: u64,
    dedicated_allocations: u64,
    oversized_allocations: u64,
    oversized_bytes_in_use: u64,
}

impl View for ChunkPoolStats {
    type V = ChunkCounters;

    closed spec fn view(&self) -> ChunkCounters {
        ChunkCounters {
            total_chunks: self.total_chunks,
            chunks_in_use: self.chunks_in_use,
            packed_allocations: self.packed_allocations,
            dedicated_allocations: self.dedicated_allocations,
            oversized_allocations: self.oversized_allocations,
            oversized_bytes_in_use: self.oversized_bytes_in_use,
        }
    }
}

impl Default for ChunkPoolStats {
    /// Counters at zero.
    fn default() -> (stats: Self)
        ensures
            stats@ == no_chunks(),
    {
        ChunkPoolStats {
            total_chunks: 0,
            chunks_in_use: 0,
            packed_allocations: 0,
            dedicated_allocations: 0,
            oversized_allocations: 0,
            oversized_bytes_in_use: 0,
        }
    }
}

/// The counters of a pool that has allocated nothing.
pub open spec fn no_chunks() -> ChunkCounters {
    ChunkCounters {
        total_chunks: 0,
        chunks_in_use: 0,
        packed_allocations: 0,
        dedicated_allocations: 0,
        oversized_allocations: 0,
        oversized_bytes_in_use: 0,
    }
}

impl ChunkPoolStats {
    /// Chunks allocated so far.
    pub fn total_chunks(&self) -> (n: u64)
        ensures
            n == self@.total_chunks,
    {
        self.total_chunks
    }

    /// Chunks held now, in builders or sealed.
    pub fn chunks_in_use(&self) -> (n: u64)
        ensures
            n == self@.chunks_in_use,
    {
        self.chunks_in_use
    }

    /// Chunks that were packed into a shared page.
    pub fn packed_allocations(&self) -> (n: u64)
        ensures
            n == self@.packed_allocations,
    {
        self.packed_allocations
    }

    /// Chunks that got a page of their own.
    pub fn dedicated_allocations(&self) -> (n: u64)
        ensures
            n == self@.dedicated_allocations,
    {
        self.dedicated_allocations
    }

    /// Chunks that got a heap allocation of their own.
    pub fn oversized_allocations(&self) -> (n: u64)
        ensures
            n == self@.oversized_allocations,
    {
        self.oversized_allocations
    }

    /// The bytes of the oversized chunks held now.
    pub fn oversized_bytes_in_use(&self) -> (n: u64)
        ensures
            n == self@.oversized_bytes_in_use,
    {
        self.oversized_bytes_in_use
    }

    /// Counts an allocation in its class.
    fn count(&mut self, class: &SizeClass, size: usize)
        ensures
            final(self)@ == counted(old(self)@, *class, size as nat),
    {
        count_up(&mut self.total_chunks, 1);
        count_up(&mut self.chunks_in_use, 1);
        match class {
            SizeClass::Zero => {},
            SizeClass::Packed => {
                count_up(&mut self.packed_allocations, 1);
            },
            SizeClass::Dedicated => {
                count_up(&mut self.dedicated_allocations, 1);
            },
            SizeClass::Oversized => {
                count_up(&mut self.oversized_allocations, 1);
                count_up(&mut self.oversized_bytes_in_use, size as u64);
            },
        }
    }
}

// ---------------------------------------------------------------------------
// The pool
// ---------------------------------------------------------------------------
/// A buffer that chunks stand on. It goes back to its origin when nothing needs
/// it any more.
pub enum PackedPage<B> {
    /// A page of the underlying page pool.
    Pool(RawPage<B>),
    /// A heap allocation of its own.
    Heap(AlignedBuf),
}

impl<B: PageBuf> PackedPage<B> {
    /// The buffer as a value.
    pub open(crate) spec fn buffer(&self, handles: nat) -> BufferView {
        match self {
            PackedPage::Pool(raw) => BufferView {
                bytes: raw.buf.bytes(),
                site: site(raw.buf),
                origin: Origin::Pool { serial: raw.serial@ },
                handles,
            },
            PackedPage::Heap(mem) => BufferView {
                bytes: mem.bytes(),
                site: site(*mem),
                origin: Origin::Heap,
                handles,
            },
        }
    }

    /// The address of the first byte.
    fn first_byte(&self) -> (n: usize)
        ensures
            forall|handles: nat| n == (#[trigger] self.buffer(handles)).site.address,
    {
        match self {
            PackedPage::Pool(raw) => raw.buf.first_byte(),
            PackedPage::Heap(mem) => mem.first_byte(),
        }
    }

    /// The bytes, to be read.
    fn as_slice(&self) -> (r: &[u8])
        ensures
            r@ == self.buffer(1).bytes,
    {
        match self {
            PackedPage::Pool(raw) => raw.buf.as_slice(),
            PackedPage::Heap(mem) => mem.as_slice(),
        }
    }

    /// The bytes, to be written.
    fn as_mut_slice(&mut self) -> (r: &mut [u8])
        ensures
            r@ == old(self).buffer(1).bytes,
            final(r)@.len() == r@.len(),
            forall|handles: nat| #[trigger]
                final(self).buffer(handles) == (BufferView {
                    bytes: final(r)@,
                    ..old(self).buffer(handles)
                }),
    {
        match self {
            PackedPage::Pool(raw) => raw.buf.as_mut_slice(),
            PackedPage::Heap(mem) => mem.as_mut_slice(),
        }
    }
}

/// What the handles of a chunk share: the range it stands on, and who is charged
/// for it.
pub struct Claim {
    pub(crate) buffer: Option<usize>,
    pub(crate) offset: usize,
    pub(crate) capacity: usize,
    pub(crate) length: usize,
    pub(crate) sealed: Ghost<bool>,
    pub(crate) oversized_bytes: u64,
    pub(crate) account: usize,
    pub(crate) charge: Ghost<nat>,
}

impl Claim {
    /// The claim as a value.
    pub open(crate) spec fn claim(&self, handles: nat) -> ClaimView {
        ClaimView {
            buffer: match self.buffer {
                Some(b) => Some(b as nat),
                None => None,
            },
            offset: self.offset as nat,
            capacity: self.capacity as nat,
            len: self.length as nat,
            sealed: self.sealed@,
            oversized: self.oversized_bytes as nat,
            account: self.account as nat,
            charge: self.charge@,
            handles,
        }
    }
}

/// The page that is open for packing.
pub struct OpenPage {
    pub(crate) buffer: usize,
    pub(crate) write_offset: usize,
}

/// The buffers of a table.
pub open(crate) spec fn buffer_views<B: PageBuf>(table: Seq<Option<Slot<PackedPage<B>>>>) -> Seq<
    Option<BufferView>,
> {
    Seq::new(
        table.len(),
        |k: int|
            match table[k] {
                Some(slot) => Some(slot.value.buffer(slot.handles as nat)),
                None => None,
            },
    )
}

/// The claims of a table.
pub open(crate) spec fn claim_views(table: Seq<Option<Slot<Claim>>>) -> Seq<Option<ClaimView>> {
    Seq::new(
        table.len(),
        |k: int|
            match table[k] {
                Some(slot) => Some(slot.value.claim(slot.handles as nat)),
                None => None,
            },
    )
}

/// An allocator of chunks of any size for one worker, backed by a [`PagePool`].
pub struct ChunkPool<S: PageSource = HeapSource> {
    pages: PagePool<S>,
    current: Option<OpenPage>,
    threshold: usize,
    stats: ChunkPoolStats,
    made: Ghost<ClassCounts>,
    buffers: Slots<PackedPage<S::Buf>>,
    claims: Slots<Claim>,
}

impl<S: PageSource> View for ChunkPool<S> {
    type V = ChunkPoolView;

    closed spec fn view(&self) -> ChunkPoolView {
        ChunkPoolView {
            pages: self.pages@,
            counters: self.stats@,
            made: self.made@,
            open: match self.current {
                Some(o) => Some(
                    OpenView { buffer: o.buffer as nat, write_offset: o.write_offset as nat },
                ),
                None => None,
            },
            buffers: buffer_views(self.buffers@),
            claims: claim_views(self.claims@),
        }
    }
}

/// A chunk pool over a page pool, as it is made.
pub open spec fn opened_chunk_pool(pages: crate::pool::PoolView) -> ChunkPoolView {
    ChunkPoolView {
        pages,
        counters: no_chunks(),
        made: ClassCounts { empty: 0, packed: 0, dedicated: 0, oversized: 0 },
        open: None,
        buffers: Seq::empty(),
        claims: Seq::empty(),
    }
}

impl ChunkPool<HeapSource> {
    /// The default size of the underlying pages.
    pub const DEFAULT_PAGE_SIZE: usize = 16 * 1024;

    /// The default alignment of a chunk: that of a pointer.
    pub const DEFAULT_ALIGN: usize = POINTER_SIZE;

    /// A pool with pages of the default size from the global allocator.
    pub fn new() -> (pool: Self)
        ensures
            pool.wf(),
            pool@ == opened_chunk_pool(
                opened_pool(
                    Self::DEFAULT_PAGE_SIZE as nat,
                    heap_page_align(Self::DEFAULT_PAGE_SIZE as nat),
                    SourceLog { allocated: 0, released: 0, prefaulted: 0 },
                ),
            ),
    {
        Self::with_page_size(Self::DEFAULT_PAGE_SIZE)
    }

    /// A pool with pages of `page_size` bytes from the global allocator.
    pub fn with_page_size(page_size: usize) -> (pool: Self)
        requires
            heap_page_size(page_size),
        ensures
            pool.wf(),
            pool@ == opened_chunk_pool(
                opened_pool(
                    page_size as nat,
                    heap_page_align(page_size as nat),
                    SourceLog { allocated: 0, released: 0, prefaulted: 0 },
                ),
            ),
    {
        Self::from_pool(PagePool::new(page_size))
    }

    /// A pool as [`with_page_size`](Self::with_page_size) makes it, with
    /// `num_pages` pages committed.
    pub fn with_capacity(page_size: usize, num_pages: usize) -> (pool: Self)
        requires
            heap_page_size(page_size),
        ensures
            pool.wf(),
            prewarmed(
                opened_pool(
                    page_size as nat,
                    heap_page_align(page_size as nat),
                    SourceLog { allocated: 0, released: 0, prefaulted: 0 },
                ),
                pool@.pages,
                num_pages as nat,
            ),
            pool@ == opened_chunk_pool(pool@.pages),
    {
        Self::from_pool(PagePool::with_capacity(page_size, num_pages))
    }
}

impl Default for ChunkPool<HeapSource> {
    /// A pool as [`new`](Self::new) makes it.
    fn default() -> (pool: Self)
        ensures
            pool.wf(),
            pool@ == opened_chunk_pool(
                opened_pool(
                    ChunkPool::DEFAULT_PAGE_SIZE as nat,
                    heap_page_align(ChunkPool::DEFAULT_PAGE_SIZE as nat),
                    SourceLog { allocated: 0, released: 0, prefaulted: 0 },
                ),
            ),
    {
        Self::new()
    }
}

impl<S: PageSource> ChunkPool<S> {
    /// The tables and the page pool are in order.
    closed spec fn inv(&self) -> bool {
        &&& self.pages.inv()
        &&& self.buffers.wf()
        &&& self.claims.wf()
        &&& self.threshold == self@.pages.page_size / 2
    }

    /// The pool is in order.
    pub closed spec fn wf(&self) -> bool {
        self.inv() && chunk_ok(self@)
    }

    /// What it is for a pool to be in order.
    pub proof fn lemma_wf(&self)
        requires
            self.wf(),
        ensures
            chunk_ok(self@),
            self@.claims.len() <= usize::MAX,
    {
        self.claims.lemma_wf();
    }

    /// A pool over `source`.
    pub fn with_source(source: S) -> (pool: Self)
        requires
            POINTER_SIZE <= source.spec_page_size(),
        ensures
            pool.wf(),
            pool@ == opened_chunk_pool(
                opened_pool(source.spec_page_size(), source.page_align(), source.log()),
            ),
    {
        Self::from_pool(PagePool::with_source(source))
    }

    /// A pool over a page pool with nothing out.
    fn from_pool(pages: PagePool<S>) -> (pool: Self)
        requires
            pages.wf(),
            pages@.sealed.len() == 0,
            crate::tally::tally(pages@.frames, crate::pool::out()) == 0,
        ensures
            pool.wf(),
            pool@ == opened_chunk_pool(pages@),
    {
        let threshold: usize = pages.page_size() / 2;
        let pool = ChunkPool {
            pages,
            current: None,
            threshold,
            stats: ChunkPoolStats::default(),
            made: Ghost(ClassCounts { empty: 0, packed: 0, dedicated: 0, oversized: 0 }),
            buffers: Slots::new(),
            claims: Slots::new(),
        };
        proof {
            assert(pool@.buffers =~= Seq::empty());
            assert(pool@.claims =~= Seq::empty());
        }
        pool
    }

    /// The size of the underlying pages.
    pub fn page_size(&self) -> (n: usize)
        ensures
            n == self@.pages.page_size,
    {
        self.pages.page_size()
    }

    /// The largest size that is packed: half a page.
    pub fn pack_threshold(&self) -> (n: usize)
        requires
            self.wf(),
        ensures
            n == self@.pages.page_size / 2,
    {
        self.threshold
    }

    /// The chunk-level counters.
    pub fn stats(&self) -> (stats: &ChunkPoolStats)
        ensures
            stats@ == self@.counters,
    {
        &self.stats
    }

    /// The page-level counters of the underlying page pool.
    pub fn page_stats(&self) -> (stats: &PoolStats)
        ensures
            stats@ == self@.pages.counters,
    {
        self.pages.stats()
    }

    /// The shared part of the underlying page pool, to be read.
    pub fn shared(&self) -> (shared: &PoolShared<S>)
        requires
            self.wf(),
        ensures
            shared.wf(),
            shared@ == self@.pages,
    {
        &self.pages.shared
    }

    /// Commits `num_pages` new pages into the free list of the underlying page
    /// pool, each of them prefaulted. No chunk is allocated.
    pub fn prewarm(&mut self, num_pages: usize)
        requires
            old(self).wf(),
            !old(self)@.pages.closed,
        ensures
            final(self).wf(),
            prewarmed(old(self)@.pages, final(self)@.pages, num_pages as nat),
            final(self)@ == (ChunkPoolView { pages: final(self)@.pages, ..old(self)@ }),
    {
        self.pages.prewarm(num_pages);
        proof {
            lemma_prewarmed(old(self)@, self@.pages, num_pages as nat);
        }
    }

    /// Gives up the handle to buffer `b` that nothing accounts for.
    fn drop_buffer(&mut self, b: usize)
        requires
            old(self).inv(),
            chunk_ok_but(old(self)@, Some(b as nat)),
            live(old(self)@.buffers, b as int),
        ensures
            final(self).wf(),
            final(self)@ == without_handle(old(self)@, b as nat),
    {
        let ghost before = self@;
        assert(live(self.buffers@, b as int));
        let last = self.buffers.release(b);
        proof {
            lemma_without_handle(before, b as nat);
        }
        assert(self@.buffers =~= without_handle(before, b as nat).buffers);
        match last {
            None => {},
            Some(PackedPage::Heap(_mem)) => {},
            Some(PackedPage::Pool(raw)) => {
                self.pages.shared.push_return(raw);
            },
        }
    }

    /// Gives up the open page. The chunks on it keep it.
    fn retire(&mut self)
        requires
            old(self).wf(),
        ensures
            final(self).wf(),
            final(self)@ == retired(old(self)@),
    {
        let ghost before = self@;
        if let Some(open) = self.current.take() {
            assert(chunk_ok_but(self@, Some(open.buffer as nat)));
            self.drop_buffer(open.buffer);
        }
        assert(self@ == retired(before));
    }

    /// Takes the next page of the page pool as a buffer with one handle.
    fn take_page(&mut self) -> (b: usize)
        requires
            old(self).wf(),
            !old(self)@.pages.closed,
        ensures
            final(self).inv(),
            ({
                let x = final(self)@.buffers[b as int]->0;
                &&& page_for(old(self)@, b as nat, x.bytes, x.site)
                &&& final(self)@ == with_page(old(self)@, b as nat, x.bytes, x.site)
            }),
    {
        let ghost before = self@;
        let raw = self.pages.allocate_raw_page();
        let ghost bytes = raw.buf.bytes();
        let ghost s = site(raw.buf);
        let b: usize = self.buffers.insert(PackedPage::Pool(raw));
        assert(!live(before.buffers, b as int));
        assert(self@.buffers =~= with_page(before, b as nat, bytes, s).buffers);
        b
    }

    /// Opens the next page of the page pool for packing.
    fn open_new_page(&mut self) -> (b: usize)
        requires
            old(self).wf(),
            !old(self)@.pages.closed,
            old(self)@.open is None,
        ensures
            final(self).wf(),
            ({
                let x = final(self)@.buffers[b as int]->0;
                &&& page_for(old(self)@, b as nat, x.bytes, x.site)
                &&& final(self)@ == opened_page(old(self)@, b as nat, x.bytes, x.site)
            }),
    {
        let ghost before = self@;
        let b: usize = self.take_page();
        let ghost x = self@.buffers[b as int]->0;
        self.current = Some(OpenPage { buffer: b, write_offset: 0 });
        proof {
            lemma_opened_page(before, b as nat, x.bytes, x.site);
            assert(self@ == opened_page(before, b as nat, x.bytes, x.site));
        }
        b
    }

    /// Adds a claim, and counts and charges it.
    fn add_claim(
        &mut self,
        ledger: &mut Ledger,
        tenant: &Tenant,
        class: &SizeClass,
        buffer: Option<usize>,
        offset: usize,
        size: usize,
    ) -> (b: ChunkBuilder)
        requires
            old(self).inv(),
            old(ledger).wf(),
            old(ledger).knows(tenant),
            old(ledger).has_room(tenant, size as nat),
        ensures
            final(self).inv(),
            final(ledger).wf(),
            final(ledger)@ == ledger_after_allocate(
                old(ledger)@,
                tenant.account(),
                Grain::Chunk,
                size as nat,
            ),
            b.key() <= old(self)@.claims.len(),
            !live(old(self)@.claims, b.key() as int),
            b.spec_len() == 0,
            b.spec_capacity() == size,
            final(self)@ == with_claim(
                old(self)@,
                b.key(),
                *class,
                new_claim(
                    match buffer {
                        Some(k) => Some(k as nat),
                        None => None,
                    },
                    offset as nat,
                    size as nat,
                    if *class is Oversized {
                        size as nat
                    } else {
                        0
                    },
                    tenant.account(),
                    old(ledger)@.charges.len(),
                ),
            ),
    {
        let ghost before = self@;
        let account: usize = tenant.account_number();
        let charge = ledger.charge_chunk(account, size as u64);
        self.stats.count(class, size);
        self.made = Ghost(made_more(self.made@, *class));
        let oversized_bytes: u64 = match class {
            SizeClass::Oversized => size as u64,
            _ => 0,
        };
        let key: usize = self.claims.insert(
            Claim {
                buffer,
                offset,
                capacity: size,
                length: 0,
                sealed: Ghost(false),
                oversized_bytes,
                account,
                charge,
            },
        );
        assert(!live(before.claims, key as int));
        assert(self@.claims =~= with_claim(
            before,
            key as nat,
            *class,
            self@.claims[key as int]->0,
        ).claims);
        ChunkBuilder { key, capacity: size, len: 0 }
    }

    /// Allocates a chunk of exactly `size` bytes for `tenant`, aligned like a
    /// pointer.
    pub fn allocate(&mut self, ledger: &mut Ledger, tenant: &Tenant, size: usize) -> (b:
        ChunkBuilder)
        requires
            old(self).wf(),
            !old(self)@.pages.closed,
            old(ledger).wf(),
            old(ledger).knows(tenant),
            old(ledger).has_room(tenant, size as nat),
            size > old(self)@.pages.page_size ==> layout_fits(size as nat, pointer_align()),
        ensures
            final(self).wf(),
            final(ledger).wf(),
            final(ledger)@ == ledger_after_allocate(
                old(ledger)@,
                tenant.account(),
                Grain::Chunk,
                size as nat,
            ),
            allocated(
                old(self)@,
                final(self)@,
                size as nat,
                POINTER_SIZE as nat,
                tenant.account(),
                old(ledger)@.charges.len(),
                b.key(),
            ),
            others_kept(old(self)@, final(self)@, b.key()),
            alone(final(self)@, b.key()),
            aligned_as_served(final(self)@, b.key(), size as nat, pointer_align()),
            b.spec_len() == 0,
            b.in_pool(final(self)@),
            b.spec_capacity() == size,
    {
        proof {
            lemma_pointer_align();
        }
        self.allocate_aligned(ledger, tenant, size, POINTER_SIZE)
    }

    /// Allocates a chunk of exactly `size` bytes for `tenant`, at a multiple of
    /// `align`, which is a power of two.
    ///
    /// The chunk starts at an address that is a multiple of `align`, except that a
    /// chunk of more than half a page has a page of its own and starts where that
    /// does. A packed chunk may be preceded by a few bytes of padding.
    pub fn allocate_aligned(
        &mut self,
        ledger: &mut Ledger,
        tenant: &Tenant,
        size: usize,
        align: usize,
    ) -> (b: ChunkBuilder)
        requires
            old(self).wf(),
            !old(self)@.pages.closed,
            old(ledger).wf(),
            old(ledger).knows(tenant),
            old(ledger).has_room(tenant, size as nat),
            is_pow2(align as int),
            size > old(self)@.pages.page_size ==> layout_fits(
                size as nat,
                heap_align(align as nat),
            ),
        ensures
            final(self).wf(),
            final(ledger).wf(),
            final(ledger)@ == ledger_after_allocate(
                old(ledger)@,
                tenant.account(),
                Grain::Chunk,
                size as nat,
            ),
            allocated(
                old(self)@,
                final(self)@,
                size as nat,
                align as nat,
                tenant.account(),
                old(ledger)@.charges.len(),
                b.key(),
            ),
            others_kept(old(self)@, final(self)@, b.key()),
            alone(final(self)@, b.key()),
            aligned_as_served(final(self)@, b.key(), size as nat, align as nat),
            b.spec_len() == 0,
            b.in_pool(final(self)@),
            b.spec_capacity() == size,
    {
        proof {
            reveal(is_pow2);
        }
        let page_size: usize = self.pages.page_size();
        let b: ChunkBuilder = if size == 0 {
            self.allocate_zero(ledger, tenant)
        } else if size > page_size {
            self.allocate_oversized(ledger, tenant, size, align)
        } else if size > self.threshold {
            self.allocate_dedicated(ledger, tenant, size)
        } else {
            self.allocate_packed(ledger, tenant, size, align)
        };
        proof {
            lemma_allocated(
                old(self)@,
                self@,
                size as nat,
                align as nat,
                tenant.account(),
                old(ledger)@.charges.len(),
                b.key(),
            );
            lemma_aligned_as_served(
                old(self)@,
                self@,
                size as nat,
                align as nat,
                tenant.account(),
                old(ledger)@.charges.len(),
                b.key(),
            );
            assert(live(self@.claims, b.key() as int));
        }
        b
    }

    /// Allocates a chunk, copies `data` into it, and seals it.
    pub fn alloc_from(&mut self, ledger: &mut Ledger, tenant: &Tenant, data: &[u8]) -> (chunk:
        Chunk)
        requires
            old(self).wf(),
            !old(self)@.pages.closed,
            old(ledger).wf(),
            old(ledger).knows(tenant),
            old(ledger).has_room(tenant, data@.len()),
            data@.len() > old(self)@.pages.page_size ==> data@.len() + (POINTER_SIZE - 1)
                <= isize::MAX,
        ensures
            final(self).wf(),
            final(ledger).wf(),
            final(ledger)@ == ledger_after_allocate(
                old(ledger)@,
                tenant.account(),
                Grain::Chunk,
                data@.len(),
            ),
            chunk.in_pool(final(self)@),
            others_kept(old(self)@, final(self)@, chunk.key()),
            chunk_content(final(self)@, chunk.key() as int) == data@,
            exists|u: ChunkPoolView|
                {
                    &&& #[trigger] allocated(
                        old(self)@,
                        u,
                        data@.len(),
                        POINTER_SIZE as nat,
                        tenant.account(),
                        old(ledger)@.charges.len(),
                        chunk.key(),
                    )
                    &&& final(self)@ == with_seal(
                        with_bytes(u, chunk.key(), data@),
                        chunk.key(),
                        data@.len(),
                    )
                },
    {
        let mut b = self.allocate(ledger, tenant, data.len());
        let ghost key = b.key();
        let ghost u = self@;
        if data.len() > 0 {
            write_at(b.as_mut_slice(self), 0, data);
            b.set_len(data.len());
        }
        proof {
            old(self).lemma_wf();
            assert(chunk_ok(u));
            assert(claim_ok(u.pages.page_size, u.buffers, u.claims[key as int]->0));
            assert(spliced(claim_bytes(u, key as int), 0, data@) =~= data@);
            lemma_sealed_chunk(
                old(self)@,
                u,
                data@.len(),
                POINTER_SIZE as nat,
                tenant.account(),
                old(ledger)@.charges.len(),
                key,
                data@,
                data@.len(),
            );
            assert(data@.subrange(0, data@.len() as int) =~= data@);
        }
        b.seal(self)
    }

    /// Allocates a chunk of `size` bytes, runs `init` on it, and seals it with all
    /// of it as content.
    ///
    /// If `init` panics, the chunk stays out of the pool and stays charged: its
    /// builder is lost, and a builder is given up only by `release`.
    pub fn alloc_with<F: FnOnce(&mut [u8])>(
        &mut self,
        ledger: &mut Ledger,
        tenant: &Tenant,
        size: usize,
        init: F,
    ) -> (chunk: Chunk)
        requires
            old(self).wf(),
            !old(self)@.pages.closed,
            old(ledger).wf(),
            old(ledger).knows(tenant),
            old(ledger).has_room(tenant, size as nat),
            size > old(self)@.pages.page_size ==> layout_fits(size as nat, pointer_align()),
            forall|s: &mut [u8]| s@.len() == size ==> call_requires(init, (s,)),
        ensures
            final(self).wf(),
            final(ledger).wf(),
            final(ledger)@ == ledger_after_allocate(
                old(ledger)@,
                tenant.account(),
                Grain::Chunk,
                size as nat,
            ),
            chunk.in_pool(final(self)@),
            others_kept(old(self)@, final(self)@, chunk.key()),
            exists|u: ChunkPoolView, s: &mut [u8]|
                {
                    &&& #[trigger] allocated(
                        old(self)@,
                        u,
                        size as nat,
                        POINTER_SIZE as nat,
                        tenant.account(),
                        old(ledger)@.charges.len(),
                        chunk.key(),
                    )
                    &&& #[trigger] call_ensures(init, (s,), ())
                    &&& s@ == claim_bytes(u, chunk.key() as int)
                    &&& s@.len() == size == final(s)@.len()
                    &&& final(self)@ == with_seal(
                        with_bytes(u, chunk.key(), final(s)@),
                        chunk.key(),
                        size as nat,
                    )
                    &&& chunk_content(final(self)@, chunk.key() as int) == final(s)@
                },
    {
        let mut b = self.allocate(ledger, tenant, size);
        let ghost key = b.key();
        let ghost u = self@;
        proof {
            old(self).lemma_wf();
            assert(chunk_ok(u));
            assert forall|data: Seq<u8>| data.len() == size implies #[trigger] sealed_well(
                old(self)@,
                u,
                key,
                data,
                size as nat,
            ) by {
                lemma_sealed_chunk(
                    old(self)@,
                    u,
                    size as nat,
                    POINTER_SIZE as nat,
                    tenant.account(),
                    old(ledger)@.charges.len(),
                    key,
                    data,
                    size as nat,
                );
                assert(data.subrange(0, size as int) =~= data);
            }
        }
        let bytes = b.as_mut_slice(self);
        assert(sealed_well(old(self)@, u, key, final(bytes)@, size as nat));
        assert(final(bytes)@.subrange(0, size as int) =~= final(bytes)@);
        init(bytes);
        b.set_len(size);
        b.seal(self)
    }

    /// Allocates a chunk of `capacity` bytes, runs `init` on it, and seals it with
    /// the content length that `init` returns.
    ///
    /// If `init` panics, the chunk stays out of the pool and stays charged: its
    /// builder is lost, and a builder is given up only by `release`.
    pub fn alloc_with_len<F: FnOnce(&mut [u8]) -> usize>(
        &mut self,
        ledger: &mut Ledger,
        tenant: &Tenant,
        capacity: usize,
        init: F,
    ) -> (chunk: Chunk)
        requires
            old(self).wf(),
            !old(self)@.pages.closed,
            old(ledger).wf(),
            old(ledger).knows(tenant),
            old(ledger).has_room(tenant, capacity as nat),
            capacity > old(self)@.pages.page_size ==> layout_fits(capacity as nat, pointer_align()),
            forall|s: &mut [u8]| s@.len() == capacity ==> call_requires(init, (s,)),
            forall|s: &mut [u8], n: usize|
                s@.len() == capacity && #[trigger] call_ensures(init, (s,), n) ==> n <= capacity,
        ensures
            final(self).wf(),
            final(ledger).wf(),
            final(ledger)@ == ledger_after_allocate(
                old(ledger)@,
                tenant.account(),
                Grain::Chunk,
                capacity as nat,
            ),
            chunk.in_pool(final(self)@),
            others_kept(old(self)@, final(self)@, chunk.key()),
            exists|u: ChunkPoolView, s: &mut [u8], n: usize|
                {
                    &&& #[trigger] allocated(
                        old(self)@,
                        u,
                        capacity as nat,
                        POINTER_SIZE as nat,
                        tenant.account(),
                        old(ledger)@.charges.len(),
                        chunk.key(),
                    )
                    &&& #[trigger] call_ensures(init, (s,), n)
                    &&& s@ == claim_bytes(u, chunk.key() as int)
                    &&& n <= s@.len() == capacity == final(s)@.len()
                    &&& final(self)@ == with_seal(
                        with_bytes(u, chunk.key(), final(s)@),
                        chunk.key(),
                        n as nat,
                    )
                    &&& chunk_content(final(self)@, chunk.key() as int) == final(s)@.subrange(
                        0,
                        n as int,
                    )
                },
    {
        let mut b = self.allocate(ledger, tenant, capacity);
        let ghost key = b.key();
        let ghost u = self@;
        proof {
            old(self).lemma_wf();
            assert(chunk_ok(u));
            assert forall|data: Seq<u8>, n: nat|
                data.len() == capacity && n <= capacity implies #[trigger] sealed_well(
                old(self)@,
                u,
                key,
                data,
                n,
            ) by {
                lemma_sealed_chunk(
                    old(self)@,
                    u,
                    capacity as nat,
                    POINTER_SIZE as nat,
                    tenant.account(),
                    old(ledger)@.charges.len(),
                    key,
                    data,
                    n,
                );
            }
        }
        let bytes = b.as_mut_slice(self);
        let ghost after = final(bytes)@;
        let len: usize = init(bytes);
        b.set_len(len);
        assert(sealed_well(old(self)@, u, key, after, len as nat));
        b.seal(self)
    }

    /// Ends the owner's part of the pool: the open page is given up, and the pages
    /// on the free list go back to the source. Chunks can still be read, cloned
    /// and given up.
    pub fn close(&mut self)
        requires
            old(self).wf(),
            !old(self)@.pages.closed,
        ensures
            final(self).wf(),
            final(self)@ == after_chunk_close(old(self)@),
    {
        proof {
            lemma_retired(self@);
            lemma_chunk_close(self@);
        }
        self.retire();
        self.pages.shut();
    }

    /// Ends a closed pool without chunks: the pages on the return queue go back to
    /// the source.
    pub fn finish(self) -> (source: S)
        requires
            self.wf(),
            self@.pages.closed,
            forall|k: int| !#[trigger] live(self@.claims, k),
        ensures
            source.spec_page_size() == self@.pages.page_size,
            source.page_align() == self@.pages.page_align,
            source.log() == (SourceLog {
                released: self@.pages.log.released + self@.pages.returned.len(),
                ..self@.pages.log
            }),
    {
        proof {
            lemma_nothing_out(self@);
        }
        self.pages.shared.close()
    }

    /// Allocates a chunk of no bytes. It has no buffer.
    fn allocate_zero(&mut self, ledger: &mut Ledger, tenant: &Tenant) -> (b: ChunkBuilder)
        requires
            old(self).wf(),
            old(ledger).wf(),
            old(ledger).knows(tenant),
        ensures
            final(self).wf(),
            final(ledger).wf(),
            final(ledger)@ == ledger_after_allocate(
                old(ledger)@,
                tenant.account(),
                Grain::Chunk,
                0,
            ),
            b.key() <= old(self)@.claims.len(),
            !live(old(self)@.claims, b.key() as int),
            final(self)@ == with_claim(
                old(self)@,
                b.key(),
                SizeClass::Zero,
                new_claim(None, 0, 0, 0, tenant.account(), old(ledger)@.charges.len()),
            ),
            b.spec_len() == 0,
            b.in_pool(final(self)@),
            b.spec_capacity() == 0,
    {
        let b = self.add_claim(ledger, tenant, &SizeClass::Zero, None, 0, 0);
        proof {
            lemma_with_claim(
                old(self)@,
                b.key(),
                SizeClass::Zero,
                new_claim(None, 0, 0, 0, tenant.account(), old(ledger)@.charges.len()),
            );
        }
        b
    }

    /// Allocates a chunk on the open page, at the next multiple of `align`. Where
    /// the page has no room, the next one is opened in its place. Where that has no
    /// room either, because no multiple of `align` lies near its start, the chunk
    /// gets a heap allocation, and where there is none that is aligned like that, it
    /// starts where the page does.
    fn allocate_packed(
        &mut self,
        ledger: &mut Ledger,
        tenant: &Tenant,
        size: usize,
        align: usize,
    ) -> (b: ChunkBuilder)
        requires
            old(self).wf(),
            !old(self)@.pages.closed,
            old(ledger).wf(),
            old(ledger).knows(tenant),
            old(ledger).has_room(tenant, size as nat),
            align > 0,
            size_class(old(self)@.pages.page_size, size as nat) is Packed,
        ensures
            final(self).wf(),
            final(ledger).wf(),
            final(ledger)@ == ledger_after_allocate(
                old(ledger)@,
                tenant.account(),
                Grain::Chunk,
                size as nat,
            ),
            allocated(
                old(self)@,
                final(self)@,
                size as nat,
                align as nat,
                tenant.account(),
                old(ledger)@.charges.len(),
                b.key(),
            ),
            b.spec_len() == 0,
            b.in_pool(final(self)@),
            b.spec_capacity() == size,
    {
        if let Some(offset) = self.room(size, align) {
            return self.pack(ledger, tenant, offset, size);
        }
        proof {
            lemma_retired(self@);
        }
        self.retire();
        let _page: usize = self.open_new_page();
        match self.room(size, align) {
            Some(offset) => self.pack(ledger, tenant, offset, size),
            None => {
                let align: usize = heap_alignment(align);
                if align - 1 <= isize::MAX as usize - size {
                    self.allocate_on_heap(ledger, tenant, &SizeClass::Packed, size, align)
                } else {
                    self.pack(ledger, tenant, 0, size)
                }
            },
        }
    }

    /// Where on the open page `size` bytes at a multiple of `align` can start, if it
    /// has room for them.
    fn room(&self, size: usize, align: usize) -> (offset: Option<usize>)
        requires
            self.wf(),
            align > 0,
            size <= self@.pages.page_size,
        ensures
            offset is Some <==> has_room(self@, size as nat, align as nat),
            offset is Some ==> self@.open->0.write_offset <= offset->0 == next_offset(
                self@,
                align as nat,
            ),
    {
        match &self.current {
            None => None,
            Some(open) => {
                assert(live(self@.buffers, open.buffer as int));
                let address: usize = self.buffers.get(open.buffer).first_byte();
                let padding: usize = padding_at(address, open.write_offset, align);
                let free: usize = self.pages.page_size() - open.write_offset;
                if padding <= free && size <= free - padding {
                    Some(open.write_offset + padding)
                } else {
                    None
                }
            },
        }
    }

    /// Allocates a chunk on the open page, from `offset` on.
    fn pack(&mut self, ledger: &mut Ledger, tenant: &Tenant, offset: usize, size: usize) -> (b:
        ChunkBuilder)
        requires
            old(self).wf(),
            old(ledger).wf(),
            old(ledger).knows(tenant),
            old(ledger).has_room(tenant, size as nat),
            size > 0,
            old(self)@.open is Some,
            old(self)@.open->0.write_offset <= offset,
            offset + size <= old(self)@.pages.page_size,
        ensures
            final(self).wf(),
            final(ledger).wf(),
            final(ledger)@ == ledger_after_allocate(
                old(ledger)@,
                tenant.account(),
                Grain::Chunk,
                size as nat,
            ),
            b.key() <= old(self)@.claims.len(),
            !live(old(self)@.claims, b.key() as int),
            final(self)@ == with_packed(
                old(self)@,
                b.key(),
                size as nat,
                offset as nat,
                tenant.account(),
                old(ledger)@.charges.len(),
            ),
            b.spec_len() == 0,
            b.in_pool(final(self)@),
            b.spec_capacity() == size,
    {
        let ghost u = self@;
        proof {
            assert(live(u.buffers, u.open->0.buffer as int));
        }
        let mut open = self.current.take().unwrap();
        open.write_offset = offset + size;
        let buffer: usize = open.buffer;
        self.current = Some(open);
        assert(live(self.buffers@, buffer as int));
        self.buffers.retain(buffer);
        let ghost mid = ChunkPoolView {
            open: Some(
                OpenView { buffer: buffer as nat, write_offset: (offset + size) as nat },
            ),
            ..with_handle(u, buffer as nat)
        };
        assert(self@.buffers =~= mid.buffers);
        assert(self@ == mid);
        let b = self.add_claim(
            ledger,
            tenant,
            &SizeClass::Packed,
            Some(buffer),
            offset,
            size,
        );
        proof {
            lemma_with_packed(
                u,
                b.key(),
                size as nat,
                offset as nat,
                tenant.account(),
                old(ledger)@.charges.len(),
            );
        }
        b
    }

    /// Allocates a chunk with a page of its own.
    fn allocate_dedicated(&mut self, ledger: &mut Ledger, tenant: &Tenant, size: usize) -> (b:
        ChunkBuilder)
        requires
            old(self).wf(),
            !old(self)@.pages.closed,
            old(ledger).wf(),
            old(ledger).knows(tenant),
            old(ledger).has_room(tenant, size as nat),
            size_class(old(self)@.pages.page_size, size as nat) is Dedicated,
        ensures
            final(self).wf(),
            final(ledger).wf(),
            final(ledger)@ == ledger_after_allocate(
                old(ledger)@,
                tenant.account(),
                Grain::Chunk,
                size as nat,
            ),
            forall|align: nat| #[trigger]
                allocated(
                    old(self)@,
                    final(self)@,
                    size as nat,
                    align,
                    tenant.account(),
                    old(ledger)@.charges.len(),
                    b.key(),
                ),
            b.spec_len() == 0,
            b.in_pool(final(self)@),
            b.spec_capacity() == size,
    {
        let ghost before = self@;
        let buffer: usize = self.take_page();
        let ghost u = self@;
        proof {
            let x = u.buffers[buffer as int]->0;
            lemma_with_page(before, buffer as nat, x.bytes, x.site);
            assert(live(u.buffers, buffer as int));
        }
        let b = self.add_claim(ledger, tenant, &SizeClass::Dedicated, Some(buffer), 0, size);
        proof {
            let c = new_claim(
                Some(buffer as nat),
                0,
                size as nat,
                0,
                tenant.account(),
                old(ledger)@.charges.len(),
            );
            lemma_fresh_apart(before, u, buffer as nat, c);
            lemma_with_claim(u, b.key(), SizeClass::Dedicated, c);
        }
        b
    }

    /// Allocates a chunk that is larger than a page.
    fn allocate_oversized(
        &mut self,
        ledger: &mut Ledger,
        tenant: &Tenant,
        size: usize,
        align: usize,
    ) -> (b: ChunkBuilder)
        requires
            old(self).wf(),
            old(ledger).wf(),
            old(ledger).knows(tenant),
            old(ledger).has_room(tenant, size as nat),
            size_class(old(self)@.pages.page_size, size as nat) is Oversized,
            layout_fits(size as nat, heap_align(align as nat)),
        ensures
            final(self).wf(),
            final(ledger).wf(),
            final(ledger)@ == ledger_after_allocate(
                old(ledger)@,
                tenant.account(),
                Grain::Chunk,
                size as nat,
            ),
            allocated(
                old(self)@,
                final(self)@,
                size as nat,
                align as nat,
                tenant.account(),
                old(ledger)@.charges.len(),
                b.key(),
            ),
            b.spec_len() == 0,
            b.in_pool(final(self)@),
            b.spec_capacity() == size,
    {
        let align: usize = heap_alignment(align);
        self.allocate_on_heap(ledger, tenant, &SizeClass::Oversized, size, align)
    }

    /// Allocates a chunk with a heap allocation of its own.
    fn allocate_on_heap(
        &mut self,
        ledger: &mut Ledger,
        tenant: &Tenant,
        class: &SizeClass,
        size: usize,
        align: usize,
    ) -> (b: ChunkBuilder)
        requires
            old(self).wf(),
            old(ledger).wf(),
            old(ledger).knows(tenant),
            old(ledger).has_room(tenant, size as nat),
            size > 0,
            *class is Oversized <==> size > old(self)@.pages.page_size,
            align >= POINTER_SIZE,
            layout_fits(size as nat, align as nat),
        ensures
            final(self).wf(),
            final(ledger).wf(),
            final(ledger)@ == ledger_after_allocate(
                old(ledger)@,
                tenant.account(),
                Grain::Chunk,
                size as nat,
            ),
            b.key() <= old(self)@.claims.len(),
            !live(old(self)@.claims, b.key() as int),
            served_from_heap(
                old(self)@,
                final(self)@,
                *class,
                size as nat,
                align as nat,
                tenant.account(),
                old(ledger)@.charges.len(),
                b.key(),
            ),
            b.spec_len() == 0,
            b.in_pool(final(self)@),
            b.spec_capacity() == size,
    {
        let ghost before = self@;
        let mem = AlignedBuf::new(size, align);
        let ghost address = mem.address();
        let buffer: usize = self.buffers.insert(PackedPage::Heap(mem));
        let ghost u = self@;
        proof {
            assert(!live(before.buffers, buffer as int));
            assert(u.buffers =~= with_heap(
                before,
                buffer as nat,
                size as nat,
                address,
            ).buffers);
            lemma_with_heap(before, buffer as nat, size as nat, address);
            assert(live(u.buffers, buffer as int));
        }
        let b = self.add_claim(ledger, tenant, class, Some(buffer), 0, size);
        proof {
            let c = new_claim(
                Some(buffer as nat),
                0,
                size as nat,
                if *class is Oversized {
                    size as nat
                } else {
                    0
                },
                tenant.account(),
                old(ledger)@.charges.len(),
            );
            lemma_fresh_apart(before, u, buffer as nat, c);
            lemma_with_claim(u, b.key(), *class, c);
        }
        b
    }
}

/// A claim on a new buffer is apart from every claim made before.
proof fn lemma_fresh_apart(v: ChunkPoolView, u: ChunkPoolView, b: nat, c: ClaimView)
    requires
        chunk_ok(v),
        !live(v.buffers, b as int),
        u.claims == v.claims,
        u.open == v.open,
        c.buffer == Some(b),
    ensures
        forall|k: int| #[trigger]
            live(u.claims, k) ==> crate::packing::apart(u.claims[k]->0, c),
        u.open is Some ==> u.open->0.buffer != b,
{
    assert forall|k: int| #[trigger] live(u.claims, k) implies crate::packing::apart(
        u.claims[k]->0,
        c,
    ) by {
        assert(live(v.claims, k));
        assert(claim_ok(v.pages.page_size, v.buffers, v.claims[k]->0));
    }
}

/// The alignment of a pointer is a power of two.
proof fn lemma_pointer_align()
    ensures
        is_pow2(POINTER_SIZE as int),
{
    reveal_with_fuel(is_pow2, 5);
}

/// The alignment of a heap allocation for which `align` is asked.
fn heap_alignment(align: usize) -> (r: usize)
    ensures
        r == heap_align(align as nat),
{
    if align > POINTER_SIZE {
        align
    } else {
        POINTER_SIZE
    }
}

/// How far the first multiple of `align` lies behind the byte at `offset` from
/// `address`.
fn padding_at(address: usize, offset: usize, align: usize) -> (padding: usize)
    requires
        align > 0,
    ensures
        offset + padding == aligned_offset(address as nat, offset as nat, align as nat),
{
    let a: usize = address % align;
    let b: usize = offset % align;
    let rest: usize = if a < align - b {
        a + b
    } else {
        a - (align - b)
    };
    proof {
        let n = align as int;
        let p = address as int / n;
        let q = offset as int / n;
        vstd::arithmetic::div_mod::lemma_fundamental_div_mod(address as int, n);
        vstd::arithmetic::div_mod::lemma_fundamental_div_mod(offset as int, n);
        let carry: int = if a < align - b {
            0
        } else {
            1
        };
        let m = p + q + carry;
        assert(address + offset == m * n + rest) by (nonlinear_arith)
            requires
                address == n * p + a,
                offset == n * q + b,
                m == p + q + carry,
                carry == 0 && a + b == rest || carry == 1 && a + b == n + rest,
        ;
        vstd::arithmetic::div_mod::lemma_fundamental_div_mod_converse(
            address + offset,
            n,
            m,
            rest as int,
        );
    }
    if rest == 0 {
        0
    } else {
        align - rest
    }
}

// ---------------------------------------------------------------------------
// Builders
// ---------------------------------------------------------------------------
/// An exclusive, writable handle to a freshly allocated chunk.
#[must_use]
#[derive(Debug)]
pub struct ChunkBuilder {
    key: usize,
    capacity: usize,
    len: usize,
}

impl ChunkBuilder {
    /// The key of the chunk's claim.
    pub closed spec fn key(&self) -> nat {
        self.key as nat
    }

    /// The number of bytes of content.
    pub closed spec fn spec_len(&self) -> nat {
        self.len as nat
    }

    /// The number of bytes of the chunk.
    pub closed spec fn spec_capacity(&self) -> nat {
        self.capacity as nat
    }

    /// The builder holds an unsealed claim of the pool `v`.
    pub open spec fn in_pool(&self, v: ChunkPoolView) -> bool {
        let c = v.claims[self.key() as int]->0;
        &&& live(v.claims, self.key() as int)
        &&& !c.sealed
        &&& c.handles == 1
        &&& c.capacity == self.spec_capacity()
        &&& self.spec_len() <= self.spec_capacity()
    }

    /// The number of bytes of the chunk.
    pub fn capacity(&self) -> (n: usize)
        ensures
            n == self.spec_capacity(),
    {
        self.capacity
    }

    /// The number of bytes of content.
    pub fn len(&self) -> (n: usize)
        ensures
            n == self.spec_len(),
    {
        self.len
    }

    /// Whether there is no content.
    pub fn is_empty(&self) -> (r: bool)
        ensures
            r == (self.spec_len() == 0),
    {
        self.len == 0
    }

    /// The number of bytes that can still be appended.
    pub fn remaining(&self) -> (n: usize)
        requires
            self.spec_len() <= self.spec_capacity(),
        ensures
            n == self.spec_capacity() - self.spec_len(),
    {
        self.capacity - self.len
    }

    /// The content.
    pub fn as_slice<'a, S: PageSource>(&self, pool: &'a ChunkPool<S>) -> (r: &'a [u8])
        requires
            pool.wf(),
            self.in_pool(pool@),
        ensures
            r@ == claim_bytes(pool@, self.key() as int).subrange(0, self.spec_len() as int),
    {
        pool.claimed(self.key, self.len)
    }

    /// The whole chunk, to be written.
    pub fn as_mut_slice<'a, S: PageSource>(&mut self, pool: &'a mut ChunkPool<S>) -> (r:
        &'a mut [u8])
        requires
            old(pool).wf(),
            old(self).in_pool(old(pool)@),
        ensures
            *final(self) == *old(self),
            r@ == claim_bytes(old(pool)@, old(self).key() as int),
            r@.len() == old(self).spec_capacity(),
            final(r)@.len() == r@.len(),
            final(pool).wf(),
            final(pool)@ == with_bytes(old(pool)@, old(self).key(), final(r)@),
    {
        pool.claimed_mut(self.key)
    }

    /// Sets the number of bytes of content.
    pub fn set_len(&mut self, len: usize)
        requires
            len <= old(self).spec_capacity(),
        ensures
            final(self).spec_len() == len,
            final(self).spec_capacity() == old(self).spec_capacity(),
            final(self).key() == old(self).key(),
    {
        self.len = len;
    }

    /// Appends `data` to the content, if it fits. If it does not, nothing changes.
    pub fn append<S: PageSource>(&mut self, pool: &mut ChunkPool<S>, data: &[u8]) -> (r: Result<
        (),
        ChunkFull,
    >)
        requires
            old(pool).wf(),
            old(self).in_pool(old(pool)@),
        ensures
            final(pool).wf(),
            final(self).in_pool(final(pool)@),
            final(self).key() == old(self).key(),
            final(self).spec_capacity() == old(self).spec_capacity(),
            r is Ok <==> old(self).spec_len() + data@.len() <= old(self).spec_capacity(),
            r is Ok ==> {
                let before = claim_bytes(old(pool)@, old(self).key() as int);
                let after = spliced(before, old(self).spec_len() as int, data@);
                &&& final(self).spec_len() == old(self).spec_len() + data@.len()
                &&& final(pool)@ == with_bytes(old(pool)@, old(self).key(), after)
                &&& claim_bytes(final(pool)@, old(self).key() as int).subrange(
                    0,
                    final(self).spec_len() as int,
                ) == before.subrange(0, old(self).spec_len() as int) + data@
            },
            r is Err ==> {
                &&& *final(self) == *old(self)
                &&& final(pool)@ == old(pool)@
                &&& r->Err_0.capacity == old(self).spec_capacity()
                &&& r->Err_0.len == old(self).spec_len()
                &&& r->Err_0.attempted == data@.len()
            },
    {
        let cap: usize = self.capacity;
        let cur: usize = self.len;
        if data.len() > cap - cur {
            return Err(ChunkFull { capacity: cap, len: cur, attempted: data.len() });
        }
        let ghost before = claim_bytes(pool@, self.key() as int);
        let ghost after = spliced(before, cur as int, data@);
        let ghost v = pool@;
        write_at(self.as_mut_slice(pool), cur, data);
        self.len = cur + data.len();
        proof {
            old(pool).lemma_wf();
            lemma_with_bytes(v, self.key(), after);
            assert(after.subrange(0, self.len as int) =~= before.subrange(0, cur as int) + data@);
        }
        Ok(())
    }

    /// Seals the builder into an immutable, shareable [`Chunk`].
    pub fn seal<S: PageSource>(self, pool: &mut ChunkPool<S>) -> (chunk: Chunk)
        requires
            old(pool).wf(),
            self.in_pool(old(pool)@),
        ensures
            final(pool).wf(),
            final(pool)@ == with_seal(old(pool)@, self.key(), self.spec_len()),
            chunk.key() == self.key(),
            chunk.in_pool(final(pool)@),
    {
        pool.seal_claim(self.key, self.len);
        Chunk { key: self.key, capacity: self.capacity, len: self.len }
    }

    /// Gives up the chunk unsealed, and settles its charge. The range that it
    /// claimed is not claimed again.
    pub fn release<S: PageSource>(self, pool: &mut ChunkPool<S>, ledger: &mut Ledger)
        requires
            old(pool).wf(),
            old(ledger).wf(),
            self.in_pool(old(pool)@),
            ({
                let c = old(pool)@.claims[self.key() as int]->0;
                charged(old(ledger)@, c.charge, c.account, Grain::Chunk, c.capacity)
            }),
        ensures
            final(pool).wf(),
            final(ledger).wf(),
            final(pool)@ == after_chunk_release(old(pool)@, self.key()),
            final(ledger)@ == ledger_after_release(
                old(ledger)@,
                old(pool)@.claims[self.key() as int]->0.charge,
            ),
    {
        pool.drop_claim(self.key, ledger);
    }
}

// ---------------------------------------------------------------------------
// Sealed chunks
// ---------------------------------------------------------------------------
/// An immutable, counted handle to a sealed chunk.
///
/// Handles are made with [`clone`](Self::clone) and given up with
/// [`release`](Self::release). With the last one the tenant's charge is settled,
/// and the buffer goes back to its origin unless another chunk needs it.
#[must_use]
#[derive(Debug)]
pub struct Chunk {
    key: usize,
    capacity: usize,
    len: usize,
}

impl Chunk {
    /// The key of the chunk's claim.
    pub closed spec fn key(&self) -> nat {
        self.key as nat
    }

    /// The number of bytes of content that the handle shows.
    pub closed spec fn spec_len(&self) -> nat {
        self.len as nat
    }

    /// The number of bytes of the chunk that the handle shows.
    pub closed spec fn spec_capacity(&self) -> nat {
        self.capacity as nat
    }

    /// The handle is one of a sealed chunk of the pool `v`.
    pub open spec fn in_pool(&self, v: ChunkPoolView) -> bool {
        let c = v.claims[self.key() as int]->0;
        &&& live(v.claims, self.key() as int)
        &&& c.sealed
        &&& c.capacity == self.spec_capacity()
        &&& c.len == self.spec_len()
    }

    /// The number of bytes of content.
    pub fn len(&self) -> (n: usize)
        ensures
            n == self.spec_len(),
    {
        self.len
    }

    /// Whether there is no content.
    pub fn is_empty(&self) -> (r: bool)
        ensures
            r == (self.spec_len() == 0),
    {
        self.len == 0
    }

    /// The number of bytes of the chunk.
    pub fn capacity(&self) -> (n: usize)
        ensures
            n == self.spec_capacity(),
    {
        self.capacity
    }

    /// The content.
    pub fn as_slice<'a, S: PageSource>(&self, pool: &'a ChunkPool<S>) -> (r: &'a [u8])
        requires
            pool.wf(),
            self.in_pool(pool@),
        ensures
            r@ == chunk_content(pool@, self.key() as int),
    {
        proof {
            pool.lemma_wf();
            let v = pool@;
            assert(claim_ok(v.pages.page_size, v.buffers, v.claims[self.key() as int]->0));
        }
        pool.claimed(self.key, self.len)
    }

    /// The number of handles to the chunk.
    pub fn ref_count<S: PageSource>(&self, pool: &ChunkPool<S>) -> (n: usize)
        requires
            pool.wf(),
            self.in_pool(pool@),
        ensures
            n == pool@.claims[self.key() as int]->0.handles,
    {
        pool.claim_handles(self.key)
    }

    /// Another handle to the chunk.
    pub fn clone<S: PageSource>(&self, pool: &mut ChunkPool<S>) -> (chunk: Chunk)
        requires
            old(pool).wf(),
            self.in_pool(old(pool)@),
            old(pool)@.claims[self.key() as int]->0.handles <= isize::MAX,
        ensures
            final(pool).wf(),
            chunk == *self,
            final(pool)@ == with_chunk_handle(old(pool)@, self.key()),
    {
        pool.retain_claim(self.key);
        Chunk { key: self.key, capacity: self.capacity, len: self.len }
    }

    /// Gives up the handle. With the last one the tenant's charge is settled, and
    /// the buffer goes back to its origin unless another chunk needs it.
    pub fn release<S: PageSource>(self, pool: &mut ChunkPool<S>, ledger: &mut Ledger)
        requires
            old(pool).wf(),
            old(ledger).wf(),
            self.in_pool(old(pool)@),
            ({
                let c = old(pool)@.claims[self.key() as int]->0;
                c.handles == 1 ==> charged(
                    old(ledger)@,
                    c.charge,
                    c.account,
                    Grain::Chunk,
                    c.capacity,
                )
            }),
        ensures
            final(pool).wf(),
            final(ledger).wf(),
            final(pool)@ == after_chunk_release(old(pool)@, self.key()),
            ({
                let c = old(pool)@.claims[self.key() as int]->0;
                final(ledger)@ == if c.handles == 1 {
                    ledger_after_release(old(ledger)@, c.charge)
                } else {
                    old(ledger)@
                }
            }),
    {
        pool.drop_claim(self.key, ledger);
    }
}

// ---------------------------------------------------------------------------
// What handles ask of the pool
// ---------------------------------------------------------------------------
impl<S: PageSource> ChunkPool<S> {
    /// The first `len` bytes of a claim.
    fn claimed(&self, key: usize, len: usize) -> (r: &[u8])
        requires
            self.wf(),
            live(self@.claims, key as int),
            len <= self@.claims[key as int]->0.capacity,
        ensures
            r@ == claim_bytes(self@, key as int).subrange(0, len as int),
    {
        assert(claim_ok(self@.pages.page_size, self@.buffers, self@.claims[key as int]->0));
        assert(live(self.claims@, key as int));
        let claim = self.claims.get(key);
        match claim.buffer {
            Some(b) => {
                assert(live(self.buffers@, b as int));
                let bytes = self.buffers.get(b).as_slice();
                let _total: usize = bytes.len();
                let r = vstd::slice::slice_subrange(bytes, claim.offset, claim.offset + len);
                assert(r@ =~= claim_bytes(self@, key as int).subrange(0, len as int));
                r
            },
            None => {
                let r: &[u8] = &[];
                assert(r@ =~= claim_bytes(self@, key as int).subrange(0, len as int));
                r
            },
        }
    }

    /// The bytes of a claim, to be written.
    fn claimed_mut(&mut self, key: usize) -> (r: &mut [u8])
        requires
            old(self).wf(),
            live(old(self)@.claims, key as int),
        ensures
            r@ == claim_bytes(old(self)@, key as int),
            r@.len() == old(self)@.claims[key as int]->0.capacity,
            final(r)@.len() == r@.len(),
            final(self).wf(),
            final(self)@ == with_bytes(old(self)@, key as nat, final(r)@),
    {
        let ghost v = self@;
        proof {
            assert(claim_ok(v.pages.page_size, v.buffers, v.claims[key as int]->0));
            assert(live(self.claims@, key as int));
            assert forall|data: Seq<u8>|
                data.len() == v.claims[key as int]->0.capacity implies #[trigger] chunk_ok(
                with_bytes(v, key as nat, data),
            ) by {
                lemma_with_bytes(v, key as nat, data);
            }
        }
        let claim = self.claims.get(key);
        match claim.buffer {
            Some(b) => {
                assert(live(self.buffers@, b as int));
                let _total: usize = self.buffers.get(b).as_slice().len();
                let from: usize = claim.offset;
                let to: usize = claim.offset + claim.capacity;
                let r = window_mut(self.buffers.get_mut(b).as_mut_slice(), from, to);
                proof {
                    let w = with_bytes(v, key as nat, final(r)@);
                    assert(chunk_ok(w));
                    assert(after_borrow(self)@.buffers =~= w.buffers);
                }
                r
            },
            None => &mut [],
        }
    }

    /// Seals a claim with `len` bytes of content.
    fn seal_claim(&mut self, key: usize, len: usize)
        requires
            old(self).wf(),
            live(old(self)@.claims, key as int),
            len <= old(self)@.claims[key as int]->0.capacity,
        ensures
            final(self).wf(),
            final(self)@ == with_seal(old(self)@, key as nat, len as nat),
    {
        let ghost v = self@;
        assert(live(self.claims@, key as int));
        let claim = self.claims.get_mut(key);
        claim.length = len;
        claim.sealed = Ghost(true);
        proof {
            let c = v.claims[key as int]->0;
            assert(self@.claims =~= with_seal(v, key as nat, len as nat).claims);
            assert(claim_ok(v.pages.page_size, v.buffers, c));
            lemma_claim_update(v, key as nat, ClaimView { len: len as nat, sealed: true, ..c });
        }
    }

    /// The number of handles to a chunk.
    fn claim_handles(&self, key: usize) -> (n: usize)
        requires
            self.wf(),
            live(self@.claims, key as int),
        ensures
            n == self@.claims[key as int]->0.handles,
    {
        assert(live(self.claims@, key as int));
        self.claims.handles(key)
    }

    /// Adds a handle to a chunk.
    fn retain_claim(&mut self, key: usize)
        requires
            old(self).wf(),
            live(old(self)@.claims, key as int),
            old(self)@.claims[key as int]->0.handles <= isize::MAX,
        ensures
            final(self).wf(),
            final(self)@ == with_chunk_handle(old(self)@, key as nat),
    {
        let ghost v = self@;
        assert(live(self.claims@, key as int));
        self.claims.retain(key);
        proof {
            let c = v.claims[key as int]->0;
            assert(self@.claims =~= with_chunk_handle(v, key as nat).claims);
            assert(claim_ok(v.pages.page_size, v.buffers, c));
            lemma_claim_update(v, key as nat, ClaimView { handles: c.handles + 1, ..c });
        }
    }

    /// Gives up a handle to a chunk.
    fn drop_claim(&mut self, key: usize, ledger: &mut Ledger)
        requires
            old(self).wf(),
            old(ledger).wf(),
            live(old(self)@.claims, key as int),
            ({
                let c = old(self)@.claims[key as int]->0;
                c.handles == 1 ==> charged(
                    old(ledger)@,
                    c.charge,
                    c.account,
                    Grain::Chunk,
                    c.capacity,
                )
            }),
        ensures
            final(self).wf(),
            final(ledger).wf(),
            final(self)@ == after_chunk_release(old(self)@, key as nat),
            ({
                let c = old(self)@.claims[key as int]->0;
                final(ledger)@ == if c.handles == 1 {
                    ledger_after_release(old(ledger)@, c.charge)
                } else {
                    old(ledger)@
                }
            }),
    {
        let ghost v = self@;
        let ghost c = v.claims[key as int]->0;
        assert(live(self.claims@, key as int));
        assert(claim_ok(v.pages.page_size, v.buffers, c));
        let last = self.claims.release(key);
        match last {
            None => {
                proof {
                    assert(self@.claims =~= after_chunk_release(v, key as nat).claims);
                    lemma_chunk_release(v, key as nat);
                }
            },
            Some(claim) => {
                ledger.settle_chunk(claim.account, claim.capacity as u64, claim.charge);
                count_down(&mut self.stats.chunks_in_use, 1);
                if claim.oversized_bytes > 0 {
                    count_down(&mut self.stats.oversized_bytes_in_use, claim.oversized_bytes);
                }
                proof {
                    assert(self@.claims =~= without_claim(v, key as nat).claims);
                    lemma_without_claim(v, key as nat);
                    assert(self@ == without_claim(v, key as nat));
                }
                if let Some(b) = claim.buffer {
                    self.drop_buffer(b);
                }
            },
        }
    }
}

} // verus!
