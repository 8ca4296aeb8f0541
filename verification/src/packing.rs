//! The model of a chunk pool: which ranges of which buffers its chunks stand on.
//!
//! A chunk pool keeps buffers, each a page of its page pool or a heap allocation
//! of its own, and claims, one for each chunk that is being built or sealed. A
//! claim names a range of a buffer. The ranges of two claims never overlap, a
//! buffer is kept exactly as long as a claim or the cursor of the open page needs
//! it, and the counters agree with the claims.
use vstd::prelude::*;
#[allow(unused_imports)]
use vstd::arithmetic::power2::is_pow2;

use crate::counter::wrap64;
use crate::pool::PoolView;
use crate::tally::{place, tally};
#[allow(unused_imports)]
use crate::counter::lemma_wrap64_step;
#[allow(unused_imports)]
use crate::memory::{layout_fits, spliced, zeros, Site};
#[allow(unused_imports)]
use crate::pool::{
    after_close, after_return, after_take, lemma_prewarm_ok, lemma_return_ok, lemma_take_ok,
    new_sites, next_taken, out, pool_ok, prewarmed, site_for, takes_fresh, Frame,
};
#[allow(unused_imports)]
use crate::slots::live;
#[allow(unused_imports)]
use crate::tally::{
    lemma_tally_member, lemma_tally_place, lemma_tally_push, lemma_tally_update, lemma_tally_zero,
};

verus! {

// ---------------------------------------------------------------------------
// The state
// ---------------------------------------------------------------------------
/// Where a buffer came from and goes back to.
pub enum Origin {
    /// A page of the page pool.
    Pool { serial: nat },
    /// A heap allocation.
    Heap,
}

/// A buffer: what it holds and which memory that is, where it came from, and how
/// many claims and cursors need it.
pub struct BufferView {
    pub bytes: Seq<u8>,
    pub site: Site,
    pub origin: Origin,
    pub handles: nat,
}

/// A claim: the range of a buffer that a chunk stands on, and who is charged for
/// it. A chunk of no bytes has no buffer. `len` is the content length, once
/// sealed; `handles` counts the handles to the chunk.
pub struct ClaimView {
    pub buffer: Option<nat>,
    pub offset: nat,
    pub capacity: nat,
    pub len: nat,
    pub sealed: bool,
    pub oversized: nat,
    pub account: nat,
    pub charge: nat,
    pub handles: nat,
}

/// The page that is open for packing: everything from `write_offset` on is
/// unclaimed.
pub struct OpenView {
    pub buffer: nat,
    pub write_offset: nat,
}

/// The readings of a chunk pool's counters.
pub struct ChunkCounters {
    pub total_chunks: u64,
    pub chunks_in_use: u64,
    pub packed_allocations: u64,
    pub dedicated_allocations: u64,
    pub oversized_allocations: u64,
    pub oversized_bytes_in_use: u64,
}

/// How many chunks were allocated so far in each size class.
pub struct ClassCounts {
    pub empty: nat,
    pub packed: nat,
    pub dedicated: nat,
    pub oversized: nat,
}

/// A chunk pool as a value. `made` counts the allocations so far, as the counters
/// do, but without end.
pub struct ChunkPoolView {
    pub pages: PoolView,
    pub counters: ChunkCounters,
    pub made: ClassCounts,
    pub open: Option<OpenView>,
    pub buffers: Seq<Option<BufferView>>,
    pub claims: Seq<Option<ClaimView>>,
}

/// The bytes of the range that claim `k` names.
pub open spec fn claim_bytes(v: ChunkPoolView, k: int) -> Seq<u8> {
    let c = v.claims[k]->0;
    match c.buffer {
        Some(b) => v.buffers[b as int]->0.bytes.subrange(
            c.offset as int,
            (c.offset + c.capacity) as int,
        ),
        None => Seq::empty(),
    }
}

/// Where the range that claim `k` names starts.
pub open spec fn claim_address(v: ChunkPoolView, k: int) -> nat {
    let c = v.claims[k]->0;
    v.buffers[c.buffer->0 as int]->0.site.address + c.offset
}

/// The content of the sealed chunk `k`.
pub open spec fn chunk_content(v: ChunkPoolView, k: int) -> Seq<u8> {
    claim_bytes(v, k).subrange(0, v.claims[k]->0.len as int)
}

// ---------------------------------------------------------------------------
// The invariant
// ---------------------------------------------------------------------------
/// One for a claim on buffer `b`.
pub open spec fn on(b: nat) -> spec_fn(Option<ClaimView>) -> nat {
    |c: Option<ClaimView>|
        if c is Some && c->0.buffer == Some(b) {
            1
        } else {
            0
        }
}

/// One for each claim.
pub open spec fn in_use() -> spec_fn(Option<ClaimView>) -> nat {
    |c: Option<ClaimView>|
        if c is Some {
            1
        } else {
            0
        }
}

/// The bytes of an oversized claim.
pub open spec fn oversized() -> spec_fn(Option<ClaimView>) -> nat {
    |c: Option<ClaimView>|
        if c is Some {
            c->0.oversized
        } else {
            0
        }
}

/// One for each buffer from the page pool.
pub open spec fn pooled() -> spec_fn(Option<BufferView>) -> nat {
    |b: Option<BufferView>|
        if b is Some && b->0.origin is Pool {
            1
        } else {
            0
        }
}

/// One if the open page is buffer `b`.
pub open spec fn cursor_on(open: Option<OpenView>, b: nat) -> nat {
    if open is Some && open->0.buffer == b {
        1
    } else {
        0
    }
}

/// The range of a claim lies within its buffer, which is a heap allocation if the
/// claim is larger than a page. Then its bytes count as oversized.
pub open spec fn claim_ok(
    page_size: nat,
    buffers: Seq<Option<BufferView>>,
    c: ClaimView,
) -> bool {
    &&& c.len <= c.capacity
    &&& c.handles >= 1
    &&& c.oversized == if c.capacity > page_size {
        c.capacity
    } else {
        0
    }
    &&& match c.buffer {
        Some(b) => {
            let x = buffers[b as int]->0;
            &&& live(buffers, b as int)
            &&& 0 < c.capacity
            &&& c.offset + c.capacity <= x.bytes.len()
            &&& c.capacity > page_size ==> x.origin is Heap
        },
        None => c.capacity == 0,
    }
}

/// The ranges of two claims do not overlap.
pub open spec fn apart(c: ClaimView, d: ClaimView) -> bool {
    c.buffer is Some && c.buffer == d.buffer ==> c.offset + c.capacity <= d.offset || d.offset
        + d.capacity <= c.offset
}

/// A page of the pool has the size of a page, is where the pool has it, and is held.
/// A heap allocation is at an address that was read off it.
pub open spec fn buffer_ok(pages: PoolView, x: BufferView) -> bool {
    &&& x.handles >= 1
    &&& match x.origin {
        Origin::Pool { serial } => {
            &&& x.bytes.len() == pages.page_size
            &&& serial < pages.frames.len()
            &&& x.site == pages.sites[serial as int]
            &&& pages.frames[serial as int] is Held
        },
        Origin::Heap => x.site.measured,
    }
}

/// Two buffers do not stand on one page of the pool.
pub open spec fn distinct(x: BufferView, y: BufferView) -> bool {
    x.origin is Pool && y.origin is Pool ==> x.origin->serial != y.origin->serial
}

/// Every claim on the open page ends before the cursor, and there are no more of
/// them than bytes before it.
pub open spec fn cursor_ok(v: ChunkPoolView, o: OpenView) -> bool {
    &&& live(v.buffers, o.buffer as int)
    &&& v.buffers[o.buffer as int]->0.origin is Pool
    &&& o.write_offset <= v.pages.page_size
    &&& tally(v.claims, on(o.buffer)) <= o.write_offset
    &&& forall|k: int| #[trigger]
        live(v.claims, k) && v.claims[k]->0.buffer == Some(o.buffer) ==> v.claims[k]->0.offset
            + v.claims[k]->0.capacity <= o.write_offset
}

/// How many chunks were allocated so far.
pub open spec fn all_made(m: ClassCounts) -> nat {
    m.empty + m.packed + m.dedicated + m.oversized
}

/// The counters follow the number of allocations, in total and by class.
pub open spec fn made_ok(c: ChunkCounters, m: ClassCounts) -> bool {
    &&& c.total_chunks == wrap64(all_made(m) as int)
    &&& c.packed_allocations == wrap64(m.packed as int)
    &&& c.dedicated_allocations == wrap64(m.dedicated as int)
    &&& c.oversized_allocations == wrap64(m.oversized as int)
}

/// The invariant of a chunk pool, but for one handle to buffer `loose`, if any,
/// that no claim and no cursor accounts for.
pub open spec fn chunk_ok_but(v: ChunkPoolView, loose: Option<nat>) -> bool {
    &&& pool_ok(v.pages)
    &&& v.pages.sealed.len() == 0
    &&& forall|k: int| #[trigger]
        live(v.claims, k) ==> claim_ok(v.pages.page_size, v.buffers, v.claims[k]->0)
    &&& forall|j: int, k: int|
        #![trigger live(v.claims, j), live(v.claims, k)]
        live(v.claims, j) && live(v.claims, k) && j != k ==> apart(
            v.claims[j]->0,
            v.claims[k]->0,
        )
    &&& forall|b: int| #[trigger]
        live(v.buffers, b) ==> {
            &&& buffer_ok(v.pages, v.buffers[b]->0)
            &&& v.buffers[b]->0.handles == tally(v.claims, on(b as nat)) + cursor_on(
                v.open,
                b as nat,
            ) + if loose == Some(b as nat) {
                1nat
            } else {
                0
            }
        }
    &&& forall|a: int, b: int|
        #![trigger live(v.buffers, a), live(v.buffers, b)]
        live(v.buffers, a) && live(v.buffers, b) && a != b ==> distinct(
            v.buffers[a]->0,
            v.buffers[b]->0,
        )
    &&& tally(v.pages.frames, out()) == tally(v.buffers, pooled())
    &&& v.open is Some ==> !v.pages.closed && cursor_ok(v, v.open->0)
    &&& made_ok(v.counters, v.made)
    &&& tally(v.claims, in_use()) <= all_made(v.made)
    &&& v.counters.chunks_in_use == wrap64(tally(v.claims, in_use()) as int)
    &&& v.counters.oversized_bytes_in_use == wrap64(tally(v.claims, oversized()) as int)
}

/// The invariant of a chunk pool.
pub open spec fn chunk_ok(v: ChunkPoolView) -> bool {
    chunk_ok_but(v, None)
}

// ---------------------------------------------------------------------------
// Size classes
// ---------------------------------------------------------------------------
/// How a request is served.
pub enum SizeClass {
    /// No bytes: no buffer.
    Zero,
    /// Up to half a page: packed with others into the open page.
    Packed,
    /// More than half a page: a page of its own.
    Dedicated,
    /// More than a page: a heap allocation of its own.
    Oversized,
}

/// The class of a request for `size` bytes.
pub open spec fn size_class(page_size: nat, size: nat) -> SizeClass {
    if size == 0 {
        SizeClass::Zero
    } else if size > page_size {
        SizeClass::Oversized
    } else if size > page_size / 2 {
        SizeClass::Dedicated
    } else {
        SizeClass::Packed
    }
}

/// The least multiple of `align` that is no less than `n`.
pub open spec fn aligned_up(n: nat, align: nat) -> nat {
    if n % align == 0 {
        n
    } else {
        (n + (align - n % align)) as nat
    }
}

/// The counters after an allocation in the given class.
pub open spec fn counted(c: ChunkCounters, class: SizeClass, size: nat) -> ChunkCounters {
    let base = ChunkCounters {
        total_chunks: wrap64(c.total_chunks + 1),
        chunks_in_use: wrap64(c.chunks_in_use + 1),
        ..c
    };
    match class {
        SizeClass::Zero => base,
        SizeClass::Packed => ChunkCounters {
            packed_allocations: wrap64(c.packed_allocations + 1),
            ..base
        },
        SizeClass::Dedicated => ChunkCounters {
            dedicated_allocations: wrap64(c.dedicated_allocations + 1),
            ..base
        },
        SizeClass::Oversized => ChunkCounters {
            oversized_allocations: wrap64(c.oversized_allocations + 1),
            oversized_bytes_in_use: wrap64(c.oversized_bytes_in_use + size),
            ..base
        },
    }
}

/// The number of allocations after one more in the given class.
pub open spec fn made_more(m: ClassCounts, class: SizeClass) -> ClassCounts {
    match class {
        SizeClass::Zero => ClassCounts { empty: m.empty + 1, ..m },
        SizeClass::Packed => ClassCounts { packed: m.packed + 1, ..m },
        SizeClass::Dedicated => ClassCounts { dedicated: m.dedicated + 1, ..m },
        SizeClass::Oversized => ClassCounts { oversized: m.oversized + 1, ..m },
    }
}

// ---------------------------------------------------------------------------
// Steps
// ---------------------------------------------------------------------------
/// A claim as it is made: unsealed, with one handle.
pub open spec fn new_claim(
    buffer: Option<nat>,
    offset: nat,
    size: nat,
    oversized: nat,
    account: nat,
    charge: nat,
) -> ClaimView {
    ClaimView {
        buffer,
        offset,
        capacity: size,
        len: 0,
        sealed: false,
        oversized,
        account,
        charge,
        handles: 1,
    }
}

/// The pool with claim `c` added under `key`, counted in its class.
pub open spec fn with_claim(
    v: ChunkPoolView,
    key: nat,
    class: SizeClass,
    c: ClaimView,
) -> ChunkPoolView {
    ChunkPoolView {
        counters: counted(v.counters, class, c.capacity),
        made: made_more(v.made, class),
        claims: place(v.claims, key as int, Some(c)),
        ..v
    }
}

/// The pool with the next page of the page pool added as buffer `b`, with one
/// handle. `bytes` is what the page holds, and `s` is which memory it is.
pub open spec fn with_page(v: ChunkPoolView, b: nat, bytes: Seq<u8>, s: Site) -> ChunkPoolView {
    ChunkPoolView {
        pages: after_take(v.pages, s),
        buffers: place(
            v.buffers,
            b as int,
            Some(
                BufferView {
                    bytes,
                    site: s,
                    origin: Origin::Pool { serial: next_taken(v.pages) },
                    handles: 1,
                },
            ),
        ),
        ..v
    }
}

/// The pool with a heap allocation of `size` zero bytes from `address` on added as
/// buffer `b`, with one handle.
pub open spec fn with_heap(v: ChunkPoolView, b: nat, size: nat, address: nat) -> ChunkPoolView {
    ChunkPoolView {
        buffers: place(
            v.buffers,
            b as int,
            Some(
                BufferView {
                    bytes: zeros(size),
                    site: Site { address, measured: true, prefaults: 0 },
                    origin: Origin::Heap,
                    handles: 1,
                },
            ),
        ),
        ..v
    }
}

/// The pool with one more handle to buffer `b`.
pub open spec fn with_handle(v: ChunkPoolView, b: nat) -> ChunkPoolView {
    let x = v.buffers[b as int]->0;
    ChunkPoolView {
        buffers: v.buffers.update(b as int, Some(BufferView { handles: x.handles + 1, ..x })),
        ..v
    }
}

/// The pool with one handle to buffer `b` less. With the last one the buffer goes
/// back to its origin: a page to the page pool, anything else to the heap.
pub open spec fn without_handle(v: ChunkPoolView, b: nat) -> ChunkPoolView {
    let x = v.buffers[b as int]->0;
    if x.handles == 1 {
        ChunkPoolView {
            pages: match x.origin {
                Origin::Pool { serial } => after_return(v.pages, serial),
                Origin::Heap => v.pages,
            },
            buffers: v.buffers.update(b as int, None),
            ..v
        }
    } else {
        ChunkPoolView {
            buffers: v.buffers.update(
                b as int,
                Some(BufferView { handles: (x.handles - 1) as nat, ..x }),
            ),
            ..v
        }
    }
}

/// The pool without an open page: its cursor is gone, and the page with it unless
/// a chunk needs it.
pub open spec fn retired(v: ChunkPoolView) -> ChunkPoolView {
    match v.open {
        Some(o) => without_handle(ChunkPoolView { open: None, ..v }, o.buffer),
        None => v,
    }
}

/// The pool, which had no open page, with the next page opened as buffer `b`.
pub open spec fn opened_page(v: ChunkPoolView, b: nat, bytes: Seq<u8>, s: Site) -> ChunkPoolView {
    ChunkPoolView {
        open: Some(OpenView { buffer: b, write_offset: 0 }),
        ..with_page(v, b, bytes, s)
    }
}

/// How far from `address` the first multiple of `align` lies that is at least `from`
/// away.
pub open spec fn aligned_offset(address: nat, from: nat, align: nat) -> nat {
    (aligned_up(address + from, align) - address) as nat
}

/// Where on the open page the next chunk starts whose address is to be a multiple of
/// `align`.
pub open spec fn next_offset(v: ChunkPoolView, align: nat) -> nat {
    let o = v.open->0;
    aligned_offset(v.buffers[o.buffer as int]->0.site.address, o.write_offset, align)
}

/// Whether the open page has room for `size` bytes at a multiple of `align`.
pub open spec fn has_room(v: ChunkPoolView, size: nat, align: nat) -> bool {
    v.open is Some && next_offset(v, align) + size <= v.pages.page_size
}

/// The pool with `size` bytes of the open page claimed from `offset` on.
pub open spec fn with_packed(
    v: ChunkPoolView,
    key: nat,
    size: nat,
    offset: nat,
    account: nat,
    charge: nat,
) -> ChunkPoolView {
    let o = v.open->0;
    with_claim(
        ChunkPoolView {
            open: Some(OpenView { write_offset: offset + size, ..o }),
            ..with_handle(v, o.buffer)
        },
        key,
        SizeClass::Packed,
        new_claim(Some(o.buffer), offset, size, 0, account, charge),
    )
}

/// `b` can be the key of a new buffer of the pool, taken from the page pool and
/// holding `bytes` in the memory `s`: zeros, if the page comes from the source.
pub open spec fn page_for(v: ChunkPoolView, b: nat, bytes: Seq<u8>, s: Site) -> bool {
    &&& b <= v.buffers.len()
    &&& !live(v.buffers, b as int)
    &&& bytes.len() == v.pages.page_size
    &&& takes_fresh(v.pages) ==> bytes == zeros(v.pages.page_size)
    &&& site_for(v.pages, s)
}

/// `w` is the pool `v`, whose open page is new and has nothing on it, after `size`
/// bytes are allocated on that page, at a multiple of `align`.
///
/// Where the page has no multiple of `align` with room behind it, the bytes are a
/// heap allocation of their own; where no allocation is aligned like that, they are
/// the first of the page.
pub open spec fn packed_on_new_page(
    v: ChunkPoolView,
    w: ChunkPoolView,
    size: nat,
    align: nat,
    account: nat,
    charge: nat,
    key: nat,
) -> bool {
    if has_room(v, size, align) {
        w == with_packed(v, key, size, next_offset(v, align), account, charge)
    } else if layout_fits(size, heap_align(align)) {
        served_from_heap(v, w, SizeClass::Packed, size, align, account, charge, key)
    } else {
        w == with_packed(v, key, size, 0, account, charge)
    }
}

/// `w` is the pool `v` after `size` bytes of the given class are allocated on the
/// heap, at a multiple of `align`.
pub open spec fn served_from_heap(
    v: ChunkPoolView,
    w: ChunkPoolView,
    class: SizeClass,
    size: nat,
    align: nat,
    account: nat,
    charge: nat,
    key: nat,
) -> bool {
    let b = w.claims[key as int]->0.buffer->0;
    let address = w.buffers[b as int]->0.site.address;
    &&& b <= v.buffers.len()
    &&& !live(v.buffers, b as int)
    &&& address % heap_align(align) == 0
    &&& w == with_claim(
        with_heap(v, b, size, address),
        key,
        class,
        new_claim(
            Some(b),
            0,
            size,
            if class is Oversized {
                size
            } else {
                0
            },
            account,
            charge,
        ),
    )
}

/// `w` is the pool `v` after `size` bytes at a multiple of `align` are allocated
/// as claim `key`, for which `account` is charged as `charge`.
pub open spec fn allocated(
    v: ChunkPoolView,
    w: ChunkPoolView,
    size: nat,
    align: nat,
    account: nat,
    charge: nat,
    key: nat,
) -> bool {
    let b = w.claims[key as int]->0.buffer->0;
    let bytes = w.buffers[b as int]->0.bytes;
    let s = w.buffers[b as int]->0.site;
    &&& key <= v.claims.len()
    &&& !live(v.claims, key as int)
    &&& match size_class(v.pages.page_size, size) {
        SizeClass::Zero => w == with_claim(
            v,
            key,
            SizeClass::Zero,
            new_claim(None, 0, 0, 0, account, charge),
        ),
        SizeClass::Packed => if has_room(v, size, align) {
            w == with_packed(v, key, size, next_offset(v, align), account, charge)
        } else {
            let p = w.open->0.buffer;
            let x = w.buffers[p as int]->0;
            &&& page_for(retired(v), p, x.bytes, x.site)
            &&& packed_on_new_page(
                opened_page(retired(v), p, x.bytes, x.site),
                w,
                size,
                align,
                account,
                charge,
                key,
            )
        },
        SizeClass::Dedicated => {
            &&& page_for(v, b, bytes, s)
            &&& w == with_claim(
                with_page(v, b, bytes, s),
                key,
                SizeClass::Dedicated,
                new_claim(Some(b), 0, size, 0, account, charge),
            )
        },
        SizeClass::Oversized => served_from_heap(
            v,
            w,
            SizeClass::Oversized,
            size,
            align,
            account,
            charge,
            key,
        ),
    }
}

/// The default alignment of a chunk: that of a pointer.
pub open spec fn pointer_align() -> nat {
    crate::source::POINTER_SIZE as nat
}

/// The alignment of a heap allocation for which `align` is asked.
pub open spec fn heap_align(align: nat) -> nat {
    if align > pointer_align() {
        align
    } else {
        pointer_align()
    }
}

/// The pool after `data` is written over the range of claim `key`.
pub open spec fn with_bytes(v: ChunkPoolView, key: nat, data: Seq<u8>) -> ChunkPoolView {
    let c = v.claims[key as int]->0;
    match c.buffer {
        Some(b) => {
            let x = v.buffers[b as int]->0;
            ChunkPoolView {
                buffers: v.buffers.update(
                    b as int,
                    Some(BufferView { bytes: spliced(x.bytes, c.offset as int, data), ..x }),
                ),
                ..v
            }
        },
        None => v,
    }
}

/// The pool after claim `key` is sealed with `len` bytes of content.
pub open spec fn with_seal(v: ChunkPoolView, key: nat, len: nat) -> ChunkPoolView {
    let c = v.claims[key as int]->0;
    ChunkPoolView {
        claims: v.claims.update(key as int, Some(ClaimView { len, sealed: true, ..c })),
        ..v
    }
}

/// The pool after one more handle to chunk `key` is made.
pub open spec fn with_chunk_handle(v: ChunkPoolView, key: nat) -> ChunkPoolView {
    let c = v.claims[key as int]->0;
    ChunkPoolView {
        claims: v.claims.update(key as int, Some(ClaimView { handles: c.handles + 1, ..c })),
        ..v
    }
}

/// The pool with claim `key` taken out, counted as no longer in use.
pub open spec fn without_claim(v: ChunkPoolView, key: nat) -> ChunkPoolView {
    let c = v.claims[key as int]->0;
    ChunkPoolView {
        counters: ChunkCounters {
            chunks_in_use: wrap64(v.counters.chunks_in_use - 1),
            oversized_bytes_in_use: wrap64(v.counters.oversized_bytes_in_use - c.oversized),
            ..v.counters
        },
        claims: v.claims.update(key as int, None),
        ..v
    }
}

/// The pool after a handle to chunk `key` is given up. With the last one its
/// claim ends, and its buffer goes back to its origin unless something else
/// needs it.
pub open spec fn after_chunk_release(v: ChunkPoolView, key: nat) -> ChunkPoolView {
    let c = v.claims[key as int]->0;
    if c.handles != 1 {
        ChunkPoolView {
            claims: v.claims.update(
                key as int,
                Some(ClaimView { handles: (c.handles - 1) as nat, ..c }),
            ),
            ..v
        }
    } else {
        match c.buffer {
            Some(b) => without_handle(without_claim(v, key), b),
            None => without_claim(v, key),
        }
    }
}

/// The pool after its owner is gone.
pub open spec fn after_chunk_close(v: ChunkPoolView) -> ChunkPoolView {
    let r = retired(v);
    ChunkPoolView { pages: after_close(r.pages), ..r }
}

// ---------------------------------------------------------------------------
// The steps keep the invariant
// ---------------------------------------------------------------------------
/// A new buffer from the page pool keeps the invariant, but for its one handle.
pub proof fn lemma_with_page(v: ChunkPoolView, b: nat, bytes: Seq<u8>, s: Site)
    requires
        chunk_ok(v),
        !v.pages.closed,
        page_for(v, b, bytes, s),
    ensures
        chunk_ok_but(with_page(v, b, bytes, s), Some(b)),
{
    let w = with_page(v, b, bytes, s);
    let x = w.buffers[b as int]->0;
    lemma_take_ok(v.pages, s);
    lemma_tally_place(v.buffers, b as int, Some(x), pooled());
    lemma_taken_count(v.pages, s);
    assert forall|k: int| #[trigger] live(w.claims, k) implies claim_ok(
        w.pages.page_size,
        w.buffers,
        w.claims[k]->0,
    ) by {
        assert(live(v.claims, k));
    }
    assert forall|a: int| #[trigger] live(w.buffers, a) && a != b implies live(v.buffers, a)
        && w.buffers[a] == v.buffers[a] && buffer_ok(w.pages, w.buffers[a]->0) && distinct(
        w.buffers[a]->0,
        x,
    ) by {
        assert(live(v.buffers, a));
    }
    lemma_no_claims(v, b);
    if w.open is Some {
        assert(live(w.buffers, w.open->0.buffer as int));
    }
}

/// Taking a page puts one more page out.
proof fn lemma_taken_count(v: PoolView, memory: Site)
    requires
        pool_ok(v),
    ensures
        tally(after_take(v, memory).frames, out()) == tally(v.frames, out()) + 1,
{
    if takes_fresh(v) {
        lemma_tally_push(v.frames, Frame::Held, out());
    } else {
        let s = next_taken(v) as int;
        if v.owned.len() > 0 {
            assert(v.owned[v.owned.len() - 1] == s);
        } else {
            assert(v.returned[v.returned.len() - 1] == s);
        }
        lemma_tally_update(v.frames, s, Frame::Held, out());
    }
}

/// No claim is on a buffer that does not exist.
proof fn lemma_no_claims(v: ChunkPoolView, b: nat)
    requires
        forall|k: int| #[trigger]
            live(v.claims, k) ==> claim_ok(v.pages.page_size, v.buffers, v.claims[k]->0),
        !live(v.buffers, b as int),
    ensures
        tally(v.claims, on(b)) == 0,
{
    assert forall|k: int| 0 <= k < v.claims.len() implies on(b)(#[trigger] v.claims[k]) == 0 by {
        if live(v.claims, k) {
            assert(claim_ok(v.pages.page_size, v.buffers, v.claims[k]->0));
        }
    }
    lemma_tally_zero(v.claims, on(b));
}

/// A new heap buffer keeps the invariant, but for its one handle.
pub proof fn lemma_with_heap(v: ChunkPoolView, b: nat, size: nat, address: nat)
    requires
        chunk_ok(v),
        b <= v.buffers.len(),
        !live(v.buffers, b as int),
    ensures
        chunk_ok_but(with_heap(v, b, size, address), Some(b)),
{
    let w = with_heap(v, b, size, address);
    let x = w.buffers[b as int]->0;
    lemma_tally_place(v.buffers, b as int, Some(x), pooled());
    assert forall|k: int| #[trigger] live(w.claims, k) implies claim_ok(
        w.pages.page_size,
        w.buffers,
        w.claims[k]->0,
    ) by {
        assert(live(v.claims, k));
    }
    assert forall|a: int| #[trigger] live(w.buffers, a) && a != b implies live(v.buffers, a)
        && w.buffers[a] == v.buffers[a] by {
        assert(live(v.buffers, a));
    }
    lemma_no_claims(v, b);
    if w.open is Some {
        assert(live(w.buffers, w.open->0.buffer as int));
    }
}

/// One more handle keeps the invariant, but for that handle.
pub proof fn lemma_with_handle(v: ChunkPoolView, b: nat)
    requires
        chunk_ok(v),
        live(v.buffers, b as int),
    ensures
        chunk_ok_but(with_handle(v, b), Some(b)),
{
    let w = with_handle(v, b);
    let x = w.buffers[b as int];
    lemma_tally_update(v.buffers, b as int, x, pooled());
    assert forall|a: int| #[trigger] live(w.buffers, a) implies live(v.buffers, a)
        && w.buffers[a]->0.origin == v.buffers[a]->0.origin && w.buffers[a]->0.bytes
        == v.buffers[a]->0.bytes && w.buffers[a]->0.site == v.buffers[a]->0.site by {}
    assert forall|k: int| #[trigger] live(w.claims, k) implies claim_ok(
        w.pages.page_size,
        w.buffers,
        w.claims[k]->0,
    ) by {
        assert(live(v.claims, k));
    }
    if w.open is Some {
        assert(live(v.buffers, w.open->0.buffer as int));
    }
}

/// A claim accounts for a loose handle to its buffer.
pub proof fn lemma_with_claim(v: ChunkPoolView, key: nat, class: SizeClass, c: ClaimView)
    requires
        chunk_ok_but(v, c.buffer),
        key <= v.claims.len(),
        !live(v.claims, key as int),
        claim_ok(v.pages.page_size, v.buffers, c),
        class is Oversized <==> c.capacity > v.pages.page_size,
        forall|k: int| #[trigger] live(v.claims, k) ==> apart(v.claims[k]->0, c),
        v.open is Some && c.buffer == Some(v.open->0.buffer) ==> c.offset + c.capacity
            <= v.open->0.write_offset && tally(v.claims, on(v.open->0.buffer))
            < v.open->0.write_offset,
    ensures
        chunk_ok(with_claim(v, key, class, c)),
{
    let w = with_claim(v, key, class, c);
    lemma_tally_place(v.claims, key as int, Some(c), in_use());
    lemma_tally_place(v.claims, key as int, Some(c), oversized());
    lemma_wrap64_step(tally(v.claims, in_use()) as int, 1);
    lemma_wrap64_step(tally(v.claims, oversized()) as int, c.oversized as int);
    lemma_wrap64_step(all_made(v.made) as int, 1);
    lemma_wrap64_step(v.made.packed as int, 1);
    lemma_wrap64_step(v.made.dedicated as int, 1);
    lemma_wrap64_step(v.made.oversized as int, 1);
    assert forall|k: int| #[trigger] live(w.claims, k) && k != key implies live(v.claims, k)
        && w.claims[k] == v.claims[k] by {}
    assert forall|b: int| #[trigger] live(w.buffers, b) implies w.buffers[b]->0.handles == tally(
        w.claims,
        on(b as nat),
    ) + cursor_on(w.open, b as nat) by {
        assert(live(v.buffers, b));
        lemma_tally_place(v.claims, key as int, Some(c), on(b as nat));
    }
    if w.open is Some {
        lemma_tally_place(v.claims, key as int, Some(c), on(w.open->0.buffer));
    }
}

/// Without a claim its buffer has a loose handle.
pub proof fn lemma_without_claim(v: ChunkPoolView, key: nat)
    requires
        chunk_ok(v),
        live(v.claims, key as int),
    ensures
        chunk_ok_but(without_claim(v, key), v.claims[key as int]->0.buffer),
{
    let w = without_claim(v, key);
    let c = v.claims[key as int]->0;
    lemma_tally_update(v.claims, key as int, None, in_use());
    lemma_tally_update(v.claims, key as int, None, oversized());
    lemma_wrap64_step(tally(v.claims, in_use()) as int, -1);
    lemma_wrap64_step(tally(v.claims, oversized()) as int, -c.oversized);
    assert forall|k: int| #[trigger] live(w.claims, k) implies k != key && live(v.claims, k)
        && w.claims[k] == v.claims[k] by {}
    assert forall|b: int| #[trigger] live(w.buffers, b) implies w.buffers[b]->0.handles == tally(
        w.claims,
        on(b as nat),
    ) + cursor_on(w.open, b as nat) + if c.buffer == Some(b as nat) {
        1nat
    } else {
        0
    } by {
        assert(live(v.buffers, b));
        lemma_tally_update(v.claims, key as int, None, on(b as nat));
    }
    if w.open is Some {
        lemma_tally_update(v.claims, key as int, None, on(w.open->0.buffer));
    }
}

/// Giving up a loose handle restores the invariant.
pub proof fn lemma_without_handle(v: ChunkPoolView, b: nat)
    requires
        chunk_ok_but(v, Some(b)),
        live(v.buffers, b as int),
    ensures
        chunk_ok(without_handle(v, b)),
{
    let w = without_handle(v, b);
    let x = v.buffers[b as int]->0;
    lemma_tally_update(v.buffers, b as int, w.buffers[b as int], pooled());
    if x.handles == 1 {
        if x.origin is Pool {
            lemma_return_ok(v.pages, x.origin->serial);
            lemma_tally_update(
                v.pages.frames,
                x.origin->serial as int,
                Frame::Free,
                out(),
            );
        }
        assert forall|a: int| #[trigger] live(w.buffers, a) implies a != b && live(v.buffers, a)
            && w.buffers[a] == v.buffers[a] && buffer_ok(w.pages, w.buffers[a]->0) by {
            assert(live(v.buffers, a));
            assert(distinct(v.buffers[a]->0, x));
        }
        assert forall|k: int| #[trigger] live(w.claims, k) implies claim_ok(
            w.pages.page_size,
            w.buffers,
            w.claims[k]->0,
        ) by {
            assert(live(v.claims, k));
            lemma_tally_member(v.claims, k, on(b));
        }
    } else {
        assert forall|a: int| #[trigger] live(w.buffers, a) implies live(v.buffers, a)
            && w.buffers[a]->0.origin == v.buffers[a]->0.origin && w.buffers[a]->0.bytes
            == v.buffers[a]->0.bytes && w.buffers[a]->0.site == v.buffers[a]->0.site by {}
        assert forall|k: int| #[trigger] live(w.claims, k) implies claim_ok(
            w.pages.page_size,
            w.buffers,
            w.claims[k]->0,
        ) by {
            assert(live(v.claims, k));
        }
    }
    if w.open is Some {
        assert(live(v.buffers, w.open->0.buffer as int));
    }
}

/// Retiring the open page keeps the invariant.
pub proof fn lemma_retired(v: ChunkPoolView)
    requires
        chunk_ok(v),
    ensures
        chunk_ok(retired(v)),
        retired(v).open is None,
        retired(v).claims == v.claims,
        retired(v).pages.page_size == v.pages.page_size,
        retired(v).pages.closed == v.pages.closed,
{
    if v.open is Some {
        let u = ChunkPoolView { open: None, ..v };
        let b = v.open->0.buffer;
        assert(chunk_ok_but(u, Some(b)));
        lemma_without_handle(u, b);
    }
}

/// Opening a page keeps the invariant.
pub proof fn lemma_opened_page(v: ChunkPoolView, b: nat, bytes: Seq<u8>, s: Site)
    requires
        chunk_ok(v),
        v.open is None,
        !v.pages.closed,
        page_for(v, b, bytes, s),
    ensures
        chunk_ok(opened_page(v, b, bytes, s)),
{
    lemma_with_page(v, b, bytes, s);
    lemma_no_claims(v, b);
    let w = opened_page(v, b, bytes, s);
    assert(live(w.buffers, b as int));
    assert forall|k: int| #[trigger] live(w.claims, k) implies w.claims[k]->0.buffer != Some(b) by {
        lemma_tally_member(v.claims, k, on(b));
    }
}

/// The least multiple is a multiple, and not far.
pub proof fn lemma_aligned_up(n: nat, align: nat)
    requires
        align > 0,
    ensures
        n <= aligned_up(n, align) < n + align,
        aligned_up(n, align) % align == 0,
        forall|m: nat| m >= n && #[trigger] (m % align) == 0 ==> m >= aligned_up(n, align),
{
    let r = n % align;
    let q = n / align;
    vstd::arithmetic::div_mod::lemma_fundamental_div_mod(n as int, align as int);
    if r != 0 {
        assert(n + (align - r) == (q + 1) * align) by (nonlinear_arith)
            requires
                n == align * q + r,
        ;
        vstd::arithmetic::div_mod::lemma_mod_multiples_basic((q + 1) as int, align as int);
        assert forall|m: nat| m >= n && #[trigger] (m % align) == 0 implies m >= aligned_up(
            n,
            align,
        ) by {
            let p = m / align;
            vstd::arithmetic::div_mod::lemma_fundamental_div_mod(m as int, align as int);
            assert(p >= q + 1) by (nonlinear_arith)
                requires
                    m == align * p,
                    n == align * q + r,
                    m >= n,
                    0 < r < align,
            ;
            assert(m >= (q + 1) * align) by (nonlinear_arith)
                requires
                    m == align * p,
                    p >= q + 1,
                    align > 0,
            ;
        }
    }
}

/// The next multiple behind `from` is not far behind it.
pub proof fn lemma_aligned_offset(address: nat, from: nat, align: nat)
    requires
        align > 0,
    ensures
        from <= aligned_offset(address, from, align) < from + align,
        (address + aligned_offset(address, from, align)) % align == 0,
{
    lemma_aligned_up(address + from, align);
}

/// Claiming a range of the open page behind the cursor keeps the invariant.
pub proof fn lemma_with_packed(
    v: ChunkPoolView,
    key: nat,
    size: nat,
    offset: nat,
    account: nat,
    charge: nat,
)
    requires
        chunk_ok(v),
        key <= v.claims.len(),
        !live(v.claims, key as int),
        size > 0,
        v.open is Some,
        v.open->0.write_offset <= offset,
        offset + size <= v.pages.page_size,
    ensures
        chunk_ok(with_packed(v, key, size, offset, account, charge)),
{
    let o = v.open->0;
    let c = new_claim(Some(o.buffer), offset, size, 0, account, charge);
    lemma_with_handle(v, o.buffer);
    let h = with_handle(v, o.buffer);
    let u = ChunkPoolView {
        open: Some(OpenView { write_offset: offset + size, ..o }),
        ..h
    };
    assert(chunk_ok_but(u, Some(o.buffer))) by {
        assert forall|b: int| #[trigger] live(u.buffers, b) implies u.buffers[b]->0.handles
            == tally(u.claims, on(b as nat)) + cursor_on(u.open, b as nat) + if o.buffer
            == b as nat {
            1nat
        } else {
            0
        } by {
            assert(live(h.buffers, b));
        }
    }
    assert(live(h.buffers, o.buffer as int));
    assert forall|k: int| #[trigger] live(u.claims, k) implies apart(u.claims[k]->0, c) by {
        assert(live(v.claims, k));
    }
    lemma_with_claim(u, key, SizeClass::Packed, c);
}

/// Writing to a claim keeps the invariant, and changes the bytes of no other
/// claim.
pub proof fn lemma_with_bytes(v: ChunkPoolView, key: nat, data: Seq<u8>)
    requires
        chunk_ok(v),
        live(v.claims, key as int),
        data.len() == v.claims[key as int]->0.capacity,
    ensures
        chunk_ok(with_bytes(v, key, data)),
        claim_bytes(with_bytes(v, key, data), key as int) == data,
        forall|k: int| #[trigger]
            live(v.claims, k) && k != key ==> claim_bytes(with_bytes(v, key, data), k)
                == claim_bytes(v, k),
{
    let w = with_bytes(v, key, data);
    let c = v.claims[key as int]->0;
    assert(claim_ok(v.pages.page_size, v.buffers, c));
    match c.buffer {
        None => {
            assert(data =~= Seq::empty());
        },
        Some(b) => {
            lemma_tally_update(v.buffers, b as int, w.buffers[b as int], pooled());
            assert forall|a: int| #[trigger] live(w.buffers, a) implies live(v.buffers, a)
                && w.buffers[a]->0.origin == v.buffers[a]->0.origin && w.buffers[a]->0.handles
                == v.buffers[a]->0.handles && w.buffers[a]->0.bytes.len()
                == v.buffers[a]->0.bytes.len() && w.buffers[a]->0.site
                == v.buffers[a]->0.site by {}
            assert forall|k: int| #[trigger] live(w.claims, k) implies claim_ok(
                w.pages.page_size,
                w.buffers,
                w.claims[k]->0,
            ) by {
                assert(live(v.claims, k));
            }
            if w.open is Some {
                assert(live(v.buffers, w.open->0.buffer as int));
            }
            assert(claim_bytes(w, key as int) =~= data);
            assert forall|k: int| #[trigger] live(v.claims, k) && k != key implies claim_bytes(
                w,
                k,
            ) == claim_bytes(v, k) by {
                let d = v.claims[k]->0;
                assert(claim_ok(v.pages.page_size, v.buffers, d));
                assert(apart(d, c));
                assert(claim_bytes(w, k) =~= claim_bytes(v, k));
            }
        },
    }
}

/// Changing the content length, the seal or the handles of a claim keeps the
/// invariant.
pub proof fn lemma_claim_update(v: ChunkPoolView, key: nat, c: ClaimView)
    requires
        chunk_ok(v),
        live(v.claims, key as int),
        c == (ClaimView {
            len: c.len,
            sealed: c.sealed,
            handles: c.handles,
            ..v.claims[key as int]->0
        }),
        c.len <= c.capacity,
        c.handles >= 1,
    ensures
        chunk_ok(ChunkPoolView { claims: v.claims.update(key as int, Some(c)), ..v }),
{
    let w = ChunkPoolView { claims: v.claims.update(key as int, Some(c)), ..v };
    assert(claim_ok(v.pages.page_size, v.buffers, v.claims[key as int]->0));
    lemma_tally_update(v.claims, key as int, Some(c), in_use());
    lemma_tally_update(v.claims, key as int, Some(c), oversized());
    assert forall|k: int| #[trigger] live(w.claims, k) implies live(v.claims, k)
        && w.claims[k]->0.buffer == v.claims[k]->0.buffer && w.claims[k]->0.offset
        == v.claims[k]->0.offset && w.claims[k]->0.capacity == v.claims[k]->0.capacity by {}
    assert forall|b: int| #[trigger] live(w.buffers, b) implies tally(w.claims, on(b as nat))
        == tally(v.claims, on(b as nat)) by {
        lemma_tally_update(v.claims, key as int, Some(c), on(b as nat));
    }
    if w.open is Some {
        lemma_tally_update(v.claims, key as int, Some(c), on(w.open->0.buffer));
    }
}

/// Giving up a handle keeps the invariant.
pub proof fn lemma_chunk_release(v: ChunkPoolView, key: nat)
    requires
        chunk_ok(v),
        live(v.claims, key as int),
    ensures
        chunk_ok(after_chunk_release(v, key)),
{
    let c = v.claims[key as int]->0;
    assert(claim_ok(v.pages.page_size, v.buffers, c));
    if c.handles != 1 {
        lemma_claim_update(v, key, ClaimView { handles: (c.handles - 1) as nat, ..c });
    } else {
        lemma_without_claim(v, key);
        if c.buffer is Some {
            lemma_without_handle(without_claim(v, key), c.buffer->0);
        }
    }
}

/// Closing keeps the invariant.
pub proof fn lemma_chunk_close(v: ChunkPoolView)
    requires
        chunk_ok(v),
        !v.pages.closed,
    ensures
        chunk_ok(after_chunk_close(v)),
{
    lemma_retired(v);
}

/// Without claims and without an open page, nothing is out of the page pool.
pub proof fn lemma_nothing_out(v: ChunkPoolView)
    requires
        chunk_ok(v),
        v.open is None,
        forall|k: int| !#[trigger] live(v.claims, k),
    ensures
        tally(v.pages.frames, out()) == 0,
{
    assert forall|b: int| 0 <= b < v.buffers.len() implies pooled()(#[trigger] v.buffers[b])
        == 0 by {
        if live(v.buffers, b) {
            assert forall|k: int| 0 <= k < v.claims.len() implies on(b as nat)(
                #[trigger] v.claims[k],
            ) == 0 by {
                assert(!live(v.claims, k));
            }
            lemma_tally_zero(v.claims, on(b as nat));
        }
    }
    lemma_tally_zero(v.buffers, pooled());
}

/// Prewarming the page pool keeps the invariant.
pub proof fn lemma_prewarmed(v: ChunkPoolView, pages: PoolView, n: nat)
    requires
        chunk_ok(v),
        !v.pages.closed,
        prewarmed(v.pages, pages, n),
    ensures
        chunk_ok(ChunkPoolView { pages, ..v }),
{
    let w = ChunkPoolView { pages, ..v };
    lemma_prewarm_ok(v.pages, new_sites(v.pages, pages));
    lemma_prewarm_count(v.pages.frames, n);
    assert forall|b: int| #[trigger] live(w.buffers, b) implies buffer_ok(
        w.pages,
        w.buffers[b]->0,
    ) by {
        assert(live(v.buffers, b));
    }
}

/// Free pages are not out.
pub proof fn lemma_prewarm_count(frames: Seq<Frame>, n: nat)
    ensures
        tally(frames + Seq::new(n, |i: int| Frame::Free), out()) == tally(frames, out()),
    decreases n,
{
    let t = frames + Seq::new(n, |i: int| Frame::Free);
    if n == 0 {
        assert(t =~= frames);
    } else {
        lemma_prewarm_count(frames, (n - 1) as nat);
        assert(t =~= (frames + Seq::new((n - 1) as nat, |i: int| Frame::Free)).push(Frame::Free));
        lemma_tally_push(
            frames + Seq::new((n - 1) as nat, |i: int| Frame::Free),
            Frame::Free,
            out(),
        );
    }
}

// ---------------------------------------------------------------------------
// What the steps leave alone
// ---------------------------------------------------------------------------
/// Every chunk of `v` other than `key` is the same in `w`: its claim and its
/// bytes.
pub open spec fn others_kept(v: ChunkPoolView, w: ChunkPoolView, key: nat) -> bool {
    forall|k: int|
        #![trigger live(v.claims, k)]
        #![trigger live(w.claims, k)]
        live(v.claims, k) && k != key ==> {
            &&& live(w.claims, k)
            &&& w.claims[k] == v.claims[k]
            &&& claim_bytes(w, k) == claim_bytes(v, k)
        }
}

/// The range of chunk `key` overlaps that of no other chunk.
pub open spec fn alone(v: ChunkPoolView, key: nat) -> bool {
    forall|k: int| #[trigger]
        live(v.claims, k) && k != key ==> apart(v.claims[key as int]->0, v.claims[k]->0)
}

/// Giving up a loose handle leaves every chunk as it is.
pub proof fn lemma_without_handle_keeps(v: ChunkPoolView, b: nat)
    requires
        chunk_ok_but(v, Some(b)),
        live(v.buffers, b as int),
    ensures
        forall|k: int| #[trigger]
            live(v.claims, k) ==> claim_bytes(without_handle(v, b), k) == claim_bytes(v, k),
{
    assert forall|k: int| #[trigger] live(v.claims, k) implies claim_bytes(without_handle(v, b), k)
        == claim_bytes(v, k) by {
        assert(claim_ok(v.pages.page_size, v.buffers, v.claims[k]->0));
        lemma_tally_member(v.claims, k, on(b));
    }
}

/// Retiring the open page leaves every chunk as it is.
pub proof fn lemma_retired_keeps(v: ChunkPoolView)
    requires
        chunk_ok(v),
    ensures
        forall|k: int| #[trigger]
            live(v.claims, k) ==> claim_bytes(retired(v), k) == claim_bytes(v, k),
{
    if v.open is Some {
        let u = ChunkPoolView { open: None, ..v };
        let b = v.open->0.buffer;
        assert(chunk_ok_but(u, Some(b)));
        lemma_without_handle_keeps(u, b);
        assert forall|k: int| #[trigger] live(v.claims, k) implies claim_bytes(retired(v), k)
            == claim_bytes(v, k) by {
            assert(live(u.claims, k));
            assert(claim_bytes(u, k) == claim_bytes(v, k));
        }
    }
}

/// An allocation leaves every other chunk as it is, and yields an unsealed chunk of
/// the size asked for.
#[verifier::rlimit(40)]
#[verifier::spinoff_prover]
pub proof fn lemma_allocated(
    v: ChunkPoolView,
    w: ChunkPoolView,
    size: nat,
    align: nat,
    account: nat,
    charge: nat,
    key: nat,
)
    requires
        chunk_ok(v),
        align > 0,
        allocated(v, w, size, align, account, charge, key),
    ensures
        others_kept(v, w, key),
        live(w.claims, key as int),
        w.claims[key as int]->0.capacity == size,
        w.claims[key as int]->0.account == account,
        w.claims[key as int]->0.charge == charge,
        w.claims[key as int]->0.handles == 1,
        !w.claims[key as int]->0.sealed,
        w.claims[key as int]->0.oversized == if size > v.pages.page_size {
            size
        } else {
            0
        },
        w.counters == counted(v.counters, size_class(v.pages.page_size, size), size),
        w.pages.closed == v.pages.closed,
        w.pages.page_size == v.pages.page_size,
        w.pages.page_align == v.pages.page_align,
        v.pages.page_align > 0,
{
    lemma_retired(v);
    lemma_retired_keeps(v);
    let r = retired(v);
    assert forall|k: int| #[trigger] live(v.claims, k) && k != key implies live(w.claims, k)
        && w.claims[k] == v.claims[k] && claim_bytes(w, k) == claim_bytes(v, k) by {
        assert(claim_ok(v.pages.page_size, v.buffers, v.claims[k]->0));
        assert(live(r.claims, k));
        assert(claim_ok(r.pages.page_size, r.buffers, r.claims[k]->0));
    }
}

/// What the address of chunk `key`, allocated with `size` bytes and `align`, is a
/// multiple of: a chunk with a page of its own starts where the page does, and every
/// other starts at a multiple of `align`, provided that an allocation can.
pub open spec fn aligned_as_served(w: ChunkPoolView, key: nat, size: nat, align: nat) -> bool {
    let address = claim_address(w, key as int);
    match size_class(w.pages.page_size, size) {
        SizeClass::Zero => true,
        SizeClass::Packed => layout_fits(size, heap_align(align)) ==> address % align == 0,
        SizeClass::Dedicated => {
            &&& address % w.pages.page_align == 0
            &&& w.pages.page_align % align == 0 ==> address % align == 0
        },
        SizeClass::Oversized => address % align == 0,
    }
}

/// A multiple of a multiple is a multiple.
pub proof fn lemma_multiple_of_multiple(n: nat, outer: nat, inner: nat)
    requires
        outer > 0,
        inner > 0,
        n % outer == 0,
        outer % inner == 0,
    ensures
        n % inner == 0,
{
    let x = n as int / outer as int;
    let y = outer as int / inner as int;
    vstd::arithmetic::div_mod::lemma_fundamental_div_mod(n as int, outer as int);
    vstd::arithmetic::div_mod::lemma_fundamental_div_mod(outer as int, inner as int);
    assert(n == (x * y) * inner) by (nonlinear_arith)
        requires
            n == outer * x,
            outer == inner * y,
    ;
    vstd::arithmetic::div_mod::lemma_mod_multiples_basic(x * y, inner as int);
}

/// A power of two divides the alignment of a heap allocation for which it is asked.
pub proof fn lemma_heap_align(align: nat)
    requires
        is_pow2(align as int),
    ensures
        align > 0,
        heap_align(align) % align == 0,
{
    reveal_with_fuel(is_pow2, 5);
    assert(pointer_align() == 4 || pointer_align() == 8);
    if align >= pointer_align() {
        vstd::arithmetic::div_mod::lemma_mod_self_0(align as int);
    } else {
        assert(align == 1 || align == 2 || align == 4);
        assert(4nat % 1 == 0 && 4nat % 2 == 0 && 8nat % 1 == 0 && 8nat % 2 == 0 && 8nat % 4 == 0);
    }
}

/// An allocation is aligned as its class has it.
pub proof fn lemma_aligned_as_served(
    v: ChunkPoolView,
    w: ChunkPoolView,
    size: nat,
    align: nat,
    account: nat,
    charge: nat,
    key: nat,
)
    requires
        chunk_ok(v),
        chunk_ok(w),
        is_pow2(align as int),
        allocated(v, w, size, align, account, charge, key),
    ensures
        aligned_as_served(w, key, size, align),
{
    lemma_heap_align(align);
    lemma_allocated(v, w, size, align, account, charge, key);
    if size > 0 {
        let c = w.claims[key as int]->0;
        let b = c.buffer->0;
        let address = w.buffers[b as int]->0.site.address;
        assert(live(w.claims, key as int));
        assert(claim_ok(w.pages.page_size, w.buffers, c));
        assert(live(w.buffers, b as int));
        match size_class(w.pages.page_size, size) {
            SizeClass::Packed => {
                if has_room(v, size, align) {
                    assert(live(v.buffers, v.open->0.buffer as int));
                    lemma_aligned_offset(address, v.open->0.write_offset, align);
                } else {
                    let p = w.open->0.buffer;
                    let x = w.buffers[p as int]->0;
                    let o = opened_page(retired(v), p, x.bytes, x.site);
                    if has_room(o, size, align) {
                        lemma_aligned_offset(address, 0, align);
                    } else if layout_fits(size, heap_align(align)) {
                        lemma_multiple_of_multiple(address, heap_align(align), align);
                    }
                }
            },
            SizeClass::Oversized => {
                lemma_multiple_of_multiple(address, heap_align(align), align);
            },
            SizeClass::Dedicated => {
                if w.pages.page_align % align == 0 {
                    lemma_multiple_of_multiple(address, w.pages.page_align, align);
                }
            },
            SizeClass::Zero => {},
        }
    }
}

/// Giving up a handle to a chunk leaves every other chunk as it is.
pub proof fn lemma_chunk_release_keeps(v: ChunkPoolView, key: nat)
    requires
        chunk_ok(v),
        live(v.claims, key as int),
    ensures
        others_kept(v, after_chunk_release(v, key), key),
{
    let c = v.claims[key as int]->0;
    let w = after_chunk_release(v, key);
    assert(claim_ok(v.pages.page_size, v.buffers, c));
    if c.handles == 1 {
        lemma_without_claim(v, key);
        let u = without_claim(v, key);
        if c.buffer is Some {
            lemma_without_handle_keeps(u, c.buffer->0);
            assert forall|k: int| #[trigger] live(v.claims, k) && k != key implies live(w.claims, k)
                && w.claims[k] == v.claims[k] && claim_bytes(w, k) == claim_bytes(v, k) by {
                assert(live(u.claims, k));
                assert(claim_bytes(u, k) == claim_bytes(v, k));
            }
        }
    }
}

/// Writing `data` to chunk `key` of `u` and sealing it with `len` bytes leaves the
/// chunks of `v` as they are, and makes the first `len` bytes the content.
pub open spec fn sealed_well(
    v: ChunkPoolView,
    u: ChunkPoolView,
    key: nat,
    data: Seq<u8>,
    len: nat,
) -> bool {
    let w = with_seal(with_bytes(u, key, data), key, len);
    &&& others_kept(v, w, key)
    &&& chunk_content(w, key as int) == data.subrange(0, len as int)
}

/// A chunk that is allocated, written and sealed holds what was written, and every
/// other chunk is left as it was.
pub proof fn lemma_sealed_chunk(
    v: ChunkPoolView,
    u: ChunkPoolView,
    size: nat,
    align: nat,
    account: nat,
    charge: nat,
    key: nat,
    data: Seq<u8>,
    len: nat,
)
    requires
        chunk_ok(v),
        chunk_ok(u),
        align > 0,
        allocated(v, u, size, align, account, charge, key),
        data.len() == size,
        len <= size,
    ensures
        sealed_well(v, u, key, data, len),
{
    lemma_allocated(v, u, size, align, account, charge, key);
    lemma_with_bytes(u, key, data);
    let x = with_bytes(u, key, data);
    let w = with_seal(x, key, len);
    assert forall|k: int| #[trigger] live(v.claims, k) && k != key implies live(w.claims, k)
        && w.claims[k] == v.claims[k] && claim_bytes(w, k) == claim_bytes(v, k) by {
        assert(live(u.claims, k));
        assert(claim_bytes(w, k) == claim_bytes(x, k));
    }
    assert(claim_bytes(w, key as int) == claim_bytes(x, key as int));
}

} // verus!
