//! What holds of the library as a whole.
//!
//! Each law is a proof function: its parameters are the law's inputs, and its
//! `ensures` states it over the same functions that the contracts use.
use vstd::prelude::*;
#[allow(unused_imports)]
use vstd::arithmetic::power2::is_pow2;

use crate::chunk::ChunkPool;
#[allow(unused_imports)]
use crate::counter::{lemma_wrap64_exact, lemma_wrap64_step, wrap64};
#[allow(unused_imports)]
use crate::memory::{spliced, Site};
#[allow(unused_imports)]
use crate::packing::{
    after_chunk_close, after_chunk_release, aligned_as_served, all_made, allocated, apart,
    chunk_content, chunk_ok, claim_address, claim_bytes, claim_ok, counted, has_room, in_use,
    lemma_aligned_as_served, lemma_aligned_offset, lemma_allocated, lemma_chunk_release,
    lemma_chunk_release_keeps, lemma_multiple_of_multiple, lemma_nothing_out, lemma_retired,
    lemma_with_bytes, made_more, made_ok, next_offset, on, opened_page, others_kept, oversized,
    pointer_align, retired, size_class, with_bytes, with_chunk_handle, with_packed, with_seal,
    ChunkCounters, ChunkPoolView, ClaimView, ClassCounts, Origin,
};
#[allow(unused_imports)]
use crate::page::{after_clone, after_drop, after_seal, BuilderView};
#[allow(unused_imports)]
use crate::pool::{
    after_close, after_prewarm, after_return, after_take, lemma_prewarm_ok, lemma_return_ok,
    lemma_take_ok, new_sites, next_taken, out, pool_ok, prewarmed, site_for, takes_fresh,
    PoolCounters, PoolView, SealedPage,
};
#[allow(unused_imports)]
use crate::slots::live;
#[allow(unused_imports)]
use crate::source::{PageSource, SourceLog};
#[allow(unused_imports)]
use crate::tally::{
    lemma_tally_agree, lemma_tally_at_most, lemma_tally_member, lemma_tally_update,
    lemma_tally_zero, tally,
};
#[allow(unused_imports)]
use crate::tenant::{
    balanced, charged, ledger_after_allocate, ledger_after_release, open_bytes,
    usage_after_allocate, usage_after_release, Charge, Grain, Ledger, LedgerView, TenantCounters,
};

verus! {

// ---------------------------------------------------------------------------
// Tenants
// ---------------------------------------------------------------------------
/// What one tenant allocates or releases changes no other tenant's counters.
pub proof fn law_tenants_are_independent(
    v: LedgerView,
    a: nat,
    b: nat,
    grain: Grain,
    bytes: nat,
    id: nat,
)
    requires
        a < v.accounts.len(),
        b < v.accounts.len(),
        a != b,
        id < v.charges.len(),
        v.charges[id as int].account == a,
    ensures
        ledger_after_allocate(v, a, grain, bytes).accounts[b as int] == v.accounts[b as int],
        ledger_after_release(v, id).accounts[b as int] == v.accounts[b as int],
{
}

/// Releasing what was allocated brings the tenant's current usage back to what it
/// was. The totals keep the allocation, and the peak is the most that was held.
pub proof fn law_release_undoes_allocate(v: LedgerView, a: nat, grain: Grain, bytes: nat)
    requires
        a < v.accounts.len(),
        v.accounts[a as int].bytes_in_use + bytes <= u64::MAX,
    ensures
        ({
            let held = ledger_after_allocate(v, a, grain, bytes);
            let after = ledger_after_release(held, v.charges.len());
            let before = v.accounts[a as int];
            let now = after.accounts[a as int];
            &&& charged(held, v.charges.len(), a, grain, bytes)
            &&& now.bytes_in_use == before.bytes_in_use
            &&& now.pages_in_use == before.pages_in_use
            &&& now.chunks_in_use == before.chunks_in_use
            &&& now.total_pages_allocated == wrap64(
                before.total_pages_allocated + if grain is Page {
                    1int
                } else {
                    0
                },
            )
            &&& now.total_chunks_allocated == wrap64(
                before.total_chunks_allocated + if grain is Chunk {
                    1int
                } else {
                    0
                },
            )
            &&& now.peak_bytes_in_use == if before.bytes_in_use + bytes
                > before.peak_bytes_in_use {
                before.bytes_in_use + bytes
            } else {
                before.peak_bytes_in_use as int
            }
        }),
{
    let before = v.accounts[a as int];
    lemma_wrap64_step(before.pages_in_use + 1, -1);
    lemma_wrap64_step(before.chunks_in_use + 1, -1);
}

/// A tenant's peak is the largest number of bytes that it held at any time since
/// its account was opened, now included.
pub proof fn law_peak_is_the_most_ever_held(ledger: &Ledger, a: nat)
    requires
        ledger.wf(),
        a < ledger@.accounts.len(),
    ensures
        ({
            let h = ledger@.history[a as int];
            let c = ledger@.accounts[a as int];
            &&& h.len() > 0
            &&& h.first() == 0
            &&& h.last() == c.bytes_in_use
            &&& forall|i: int| 0 <= i < h.len() ==> (#[trigger] h[i]) <= c.peak_bytes_in_use
            &&& exists|i: int| 0 <= i < h.len() && #[trigger] h[i] == c.peak_bytes_in_use
        }),
{
    assert(balanced(ledger@, a));
}

/// An account's history only grows: each allocation charged to it and each release
/// adds what is held after it, and nothing else is added.
pub proof fn law_history_only_grows(
    v: LedgerView,
    a: nat,
    b: nat,
    grain: Grain,
    bytes: nat,
    id: nat,
)
    requires
        v.history.len() == v.accounts.len(),
        a < v.accounts.len(),
        b < v.accounts.len(),
        id < v.charges.len(),
        v.charges[id as int].account == a,
    ensures
        ({
            let w = ledger_after_allocate(v, a, grain, bytes);
            &&& w.history[a as int] == v.history[a as int].push(w.accounts[a as int].bytes_in_use)
            &&& b != a ==> w.history[b as int] == v.history[b as int]
        }),
        ({
            let w = ledger_after_release(v, id);
            &&& w.history[a as int] == v.history[a as int].push(w.accounts[a as int].bytes_in_use)
            &&& b != a ==> w.history[b as int] == v.history[b as int]
        }),
{
}

/// A tenant's peak never falls, and is never below what the tenant holds.
pub proof fn law_peak_is_a_high_water_mark(
    c: TenantCounters,
    grain: Grain,
    allocated: nat,
    released: nat,
)
    requires
        c.bytes_in_use <= c.peak_bytes_in_use,
        c.bytes_in_use + allocated <= u64::MAX,
        released <= c.bytes_in_use,
    ensures
        ({
            let up = usage_after_allocate(c, grain, allocated);
            &&& up.peak_bytes_in_use >= c.peak_bytes_in_use
            &&& up.bytes_in_use <= up.peak_bytes_in_use
        }),
        ({
            let down = usage_after_release(c, grain, released);
            &&& down.peak_bytes_in_use == c.peak_bytes_in_use
            &&& down.bytes_in_use <= down.peak_bytes_in_use
        }),
{
}

/// Pages do not count as chunks, nor chunks as pages.
pub proof fn law_pages_and_chunks_are_counted_apart(c: TenantCounters, bytes: nat)
    ensures
        usage_after_allocate(c, Grain::Chunk, bytes).pages_in_use == c.pages_in_use,
        usage_after_allocate(c, Grain::Chunk, bytes).total_pages_allocated
            == c.total_pages_allocated,
        usage_after_release(c, Grain::Chunk, bytes).pages_in_use == c.pages_in_use,
        usage_after_allocate(c, Grain::Page, bytes).chunks_in_use == c.chunks_in_use,
        usage_after_allocate(c, Grain::Page, bytes).total_chunks_allocated
            == c.total_chunks_allocated,
        usage_after_release(c, Grain::Page, bytes).chunks_in_use == c.chunks_in_use,
{
}

/// The bytes of account `a`'s unreleased allocations in unit `grain`.
pub open spec fn open_bytes_in(a: nat, grain: Grain) -> spec_fn(Charge) -> nat {
    |c: Charge|
        if c.account == a && c.grain == grain && c.open {
            c.bytes
        } else {
            0
        }
}

/// The bytes in two units add up.
proof fn lemma_bytes_by_grain(charges: Seq<Charge>, a: nat)
    ensures
        tally(charges, open_bytes(a)) == tally(charges, open_bytes_in(a, Grain::Page)) + tally(
            charges,
            open_bytes_in(a, Grain::Chunk),
        ),
    decreases charges.len(),
{
    if charges.len() > 0 {
        lemma_bytes_by_grain(charges.drop_last(), a);
    }
}

/// The bytes that a tenant holds are the sum of the bytes of its pages and the
/// bytes of its chunks, whichever pools they came from.
pub proof fn law_bytes_in_use_is_the_sum_of_both(ledger: &Ledger, a: nat)
    requires
        ledger.wf(),
        a < ledger@.accounts.len(),
    ensures
        ledger@.accounts[a as int].bytes_in_use == tally(
            ledger@.charges,
            open_bytes_in(a, Grain::Page),
        ) + tally(ledger@.charges, open_bytes_in(a, Grain::Chunk)),
{
    assert(balanced(ledger@, a));
    lemma_bytes_by_grain(ledger@.charges, a);
}

// ---------------------------------------------------------------------------
// Pages
// ---------------------------------------------------------------------------
/// Every page that was obtained from the source is out of the pool or free, and
/// the counters add up to that: exactly, as long as their number fits a counter.
pub proof fn law_pages_are_conserved(v: PoolView)
    requires
        pool_ok(v),
    ensures
        v.frames.len() == tally(v.frames, out()) + v.owned.len() + v.returned.len(),
        v.counters.allocations_from_heap == wrap64(
            v.counters.pages_in_use + v.counters.free_pages,
        ),
        v.frames.len() <= u64::MAX ==> {
            &&& v.counters.allocations_from_heap == v.frames.len()
            &&& v.counters.pages_in_use == tally(v.frames, out())
            &&& v.counters.free_pages == v.owned.len() + v.returned.len()
            &&& v.counters.allocations_from_heap == v.counters.pages_in_use
                + v.counters.free_pages
            &&& v.owned.len() <= v.counters.free_pages
        },
{
    let n = tally(v.frames, out()) as int;
    let f = (v.owned.len() + v.returned.len()) as int;
    lemma_wrap64_step(n, wrap64(f) as int);
    lemma_wrap64_step(f, n);
}

/// A page is never given out while it is out: the page taken next is not one that
/// a builder, a sealed page or a chunk stands on.
pub proof fn law_no_page_is_given_out_twice(v: PoolView, serial: nat, s: Site)
    requires
        pool_ok(v),
        !v.closed,
        site_for(v, s),
        serial < v.frames.len(),
        !(v.frames[serial as int] is Free),
    ensures
        next_taken(v) != serial,
        after_take(v, s).frames[serial as int] == v.frames[serial as int],
{
    lemma_take_ok(v, s);
}

/// With nothing on the owner's list, the page returned last is the page taken
/// next: the same memory. The source is not asked.
pub proof fn law_returned_page_is_reused(v: PoolView, serial: nat, s: Site)
    requires
        pool_ok(v),
        !v.closed,
        v.owned.len() == 0,
        serial < v.frames.len(),
        v.frames[serial as int] is Held,
        site_for(after_return(v, serial), s),
    ensures
        next_taken(after_return(v, serial)) == serial,
        s == v.sites[serial as int],
        ({
            let w = after_take(after_return(v, serial), s);
            &&& w.log == v.log
            &&& w.frames == v.frames
            &&& w.sites == v.sites
            &&& w.counters.pages_in_use == v.counters.pages_in_use
            &&& w.counters.allocations_from_heap == v.counters.allocations_from_heap
            &&& w.counters.return_queue_drains == wrap64(v.counters.return_queue_drains + 1)
        }),
{
    let w = after_take(after_return(v, serial), s);
    assert(w.frames =~= v.frames);
    lemma_wrap64_step(v.counters.pages_in_use - 1, 1);
    lemma_wrap64_exact(v.counters.pages_in_use as int);
}

/// Of two pages returned one after the other to a pool with nothing free, the second
/// is taken first and the first second: the same memory each. The return queue is
/// drained once, and the source is not asked.
pub proof fn law_last_returned_first_reused(v: PoolView, p: nat, q: nat, s: Site, t: Site)
    requires
        pool_ok(v),
        !v.closed,
        v.owned.len() == 0,
        v.returned.len() == 0,
        p != q,
        p < v.frames.len(),
        q < v.frames.len(),
        v.frames[p as int] is Held,
        v.frames[q as int] is Held,
        site_for(after_return(after_return(v, p), q), s),
        site_for(after_take(after_return(after_return(v, p), q), s), t),
    ensures
        ({
            let one = after_return(v, p);
            let two = after_return(one, q);
            let three = after_take(two, s);
            let four = after_take(three, t);
            &&& one.owned == v.owned
            &&& two.owned == v.owned
            &&& two.counters == (PoolCounters {
                pages_in_use: wrap64(v.counters.pages_in_use - 2),
                free_pages: wrap64(v.counters.free_pages + 2),
                ..v.counters
            })
            &&& next_taken(two) == q
            &&& s == v.sites[q as int]
            &&& next_taken(three) == p
            &&& t == v.sites[p as int]
            &&& four.counters == (PoolCounters {
                return_queue_drains: wrap64(v.counters.return_queue_drains + 1),
                ..v.counters
            })
            &&& four.log == v.log
            &&& four.frames == v.frames
        }),
{
    let two = after_return(after_return(v, p), q);
    let three = after_take(two, s);
    let four = after_take(three, t);
    let in_use = v.counters.pages_in_use as int;
    let free = v.counters.free_pages as int;
    lemma_wrap64_step(in_use - 1, -1);
    lemma_wrap64_step(in_use - 2, 1);
    lemma_wrap64_step(in_use - 1, 1);
    lemma_wrap64_step(free + 1, 1);
    lemma_wrap64_step(free + 2, -1);
    lemma_wrap64_step(free + 1, -1);
    lemma_wrap64_exact(in_use);
    lemma_wrap64_exact(free);
    assert(four.frames =~= v.frames);
}

/// A page stays the memory that the pool obtained, whatever is done.
pub proof fn law_a_page_stays_the_same_memory(
    v: PoolView,
    k: int,
    s: Site,
    serial: nat,
    key: nat,
    p: SealedPage,
    new: Seq<Site>,
)
    requires
        0 <= k < v.sites.len(),
    ensures
        after_take(v, s).sites[k] == v.sites[k],
        after_return(v, serial).sites[k] == v.sites[k],
        after_prewarm(v, new).sites[k] == v.sites[k],
        after_seal(v, key, p).sites[k] == v.sites[k],
        after_clone(v, key).sites[k] == v.sites[k],
        after_drop(v, key).sites[k] == v.sites[k],
        after_close(v).sites[k] == v.sites[k],
{
}

/// The source is asked for a page exactly when both free lists are empty, and
/// then for one.
pub proof fn law_source_is_the_last_resort(v: PoolView, s: Site)
    ensures
        takes_fresh(v) ==> after_take(v, s).log == (SourceLog {
            allocated: v.log.allocated + 1,
            ..v.log
        }),
        !takes_fresh(v) ==> after_take(v, s).log == v.log,
        takes_fresh(v) <==> v.owned.len() == 0 && v.returned.len() == 0,
{
}

/// The pool after pages are taken one after the other, which are the memory `taken`.
pub open spec fn after_takes(v: PoolView, taken: Seq<Site>) -> PoolView
    decreases taken.len(),
{
    if taken.len() == 0 {
        v
    } else {
        after_take(after_takes(v, taken.drop_last()), taken.last())
    }
}

/// Taking from the owner's list.
proof fn lemma_takes_owned(v: PoolView, taken: Seq<Site>)
    requires
        taken.len() <= v.owned.len(),
    ensures
        after_takes(v, taken).owned.len() == v.owned.len() - taken.len(),
        after_takes(v, taken).returned == v.returned,
        after_takes(v, taken).log == v.log,
        after_takes(v, taken).counters.allocations_from_heap == v.counters.allocations_from_heap,
    decreases taken.len(),
{
    if taken.len() > 0 {
        lemma_takes_owned(v, taken.drop_last());
    }
}

/// Prewarming obtains `n` pages from the source, prefaults each of them once, and
/// puts them on the owner's list.
pub proof fn law_prewarm_prefaults_each_page(v: PoolView, w: PoolView, n: nat)
    requires
        pool_ok(v),
        !v.closed,
        prewarmed(v, w, n),
    ensures
        pool_ok(w),
        w.owned.len() == v.owned.len() + n,
        w.log == (SourceLog {
            allocated: v.log.allocated + n,
            prefaulted: v.log.prefaulted + n,
            ..v.log
        }),
        forall|i: int|
            #![trigger w.owned[i]]
            v.owned.len() <= i < w.owned.len() ==> {
                &&& w.owned[i] == v.frames.len() + (i - v.owned.len())
                &&& w.sites[w.owned[i] as int].prefaults == 1
            },
{
    let new = new_sites(v, w);
    lemma_prewarm_ok(v, new);
    assert forall|i: int|
        #![trigger w.owned[i]]
        v.owned.len() <= i < w.owned.len() implies w.owned[i] == v.frames.len() + (i
        - v.owned.len()) && w.sites[w.owned[i] as int].prefaults == 1 by {
        assert(w.sites[w.owned[i] as int] == new[i - v.owned.len()]);
    }
}

/// Once `n` pages are prewarmed, the next `n` allocations do not ask the source.
pub proof fn law_prewarmed_pages_come_first(v: PoolView, w: PoolView, n: nat, taken: Seq<Site>)
    requires
        prewarmed(v, w, n),
        taken.len() <= n,
    ensures
        after_takes(w, taken).log == w.log,
        after_takes(w, taken).counters.allocations_from_heap == w.counters.allocations_from_heap,
        taken.len() < n ==> !takes_fresh(after_takes(w, taken)),
{
    lemma_takes_owned(w, taken);
}

/// A pool opened and prewarmed with `n` pages serves exactly `n` allocations
/// before it asks the source.
pub proof fn law_prewarm_serves_exactly_its_pages(
    v: PoolView,
    w: PoolView,
    n: nat,
    taken: Seq<Site>,
)
    requires
        takes_fresh(v),
        prewarmed(v, w, n),
        taken.len() == n,
    ensures
        takes_fresh(after_takes(w, taken)),
{
    lemma_takes_owned(w, taken);
}

/// Taking, returning, sealing, cloning and giving up other pages leaves a sealed
/// page as it is.
pub proof fn law_sealed_pages_do_not_change(
    v: PoolView,
    key: nat,
    other: nat,
    serial: nat,
    p: SealedPage,
    s: Site,
)
    requires
        live(v.sealed, key as int),
        key != other,
        other <= v.sealed.len(),
    ensures
        after_take(v, s).sealed[key as int] == v.sealed[key as int],
        after_return(v, serial).sealed[key as int] == v.sealed[key as int],
        after_seal(v, other, p).sealed[key as int] == v.sealed[key as int],
        live(v.sealed, other as int) ==> after_clone(v, other).sealed[key as int]
            == v.sealed[key as int],
        live(v.sealed, other as int) ==> after_drop(v, other).sealed[key as int]
            == v.sealed[key as int],
        after_clone(v, key).sealed[key as int]->0.content == v.sealed[key as int]->0.content,
{
}

/// A page is sealed with the content that was built.
pub proof fn law_sealing_keeps_the_content(v: PoolView, key: nat, b: BuilderView)
    requires
        key <= v.sealed.len(),
    ensures
        after_seal(v, key, b.sealed()).sealed[key as int]->0.content == b.content(),
{
}

/// Giving up a clone undoes the cloning.
pub proof fn law_release_undoes_clone(v: PoolView, key: nat)
    requires
        pool_ok(v),
        live(v.sealed, key as int),
    ensures
        after_drop(after_clone(v, key), key) == v,
{
    let w = after_drop(after_clone(v, key), key);
    assert(w.sealed =~= v.sealed);
}

/// The page of memory behind a sealed page comes back with the last handle, and
/// not before.
pub proof fn law_page_returns_with_the_last_handle(v: PoolView, key: nat)
    requires
        pool_ok(v),
        live(v.sealed, key as int),
    ensures
        ({
            let p = v.sealed[key as int]->0;
            let w = after_drop(v, key);
            &&& p.handles > 1 ==> w.frames == v.frames && w.returned == v.returned && live(
                w.sealed,
                key as int,
            )
            &&& p.handles == 1 ==> w.frames[p.serial as int] is Free && w.returned
                == v.returned.push(p.serial) && !live(w.sealed, key as int)
        }),
{
}

/// To seal a page and give it up comes to the same as to give it up unsealed.
pub proof fn law_sealing_does_not_matter_to_release(v: PoolView, key: nat, p: SealedPage)
    requires
        pool_ok(v),
        key <= v.sealed.len(),
        !live(v.sealed, key as int),
        p.handles == 1,
        p.serial < v.frames.len(),
        v.frames[p.serial as int] is Held,
    ensures
        ({
            let w = after_drop(after_seal(v, key, p), key);
            w == PoolView { sealed: w.sealed, ..after_return(v, p.serial) }
        }),
        forall|k: int|
            live(after_drop(after_seal(v, key, p), key).sealed, k) <==> #[trigger] live(
                v.sealed,
                k,
            ),
{
    let w = after_drop(after_seal(v, key, p), key);
    assert(w.frames =~= after_return(v, p.serial).frames);
}

/// A loop of taking a page and returning it never asks the source once a page is
/// free.
pub proof fn law_steady_state_does_not_ask_the_source(v: PoolView, s: Site)
    requires
        pool_ok(v),
        !v.closed,
        !takes_fresh(v),
        site_for(v, s),
    ensures
        ({
            let w = after_return(after_take(v, s), next_taken(v));
            &&& pool_ok(w)
            &&& !takes_fresh(w)
            &&& w.log == v.log
            &&& w.frames == v.frames
            &&& w.counters.pages_in_use == v.counters.pages_in_use
            &&& w.counters.free_pages == v.counters.free_pages
        }),
{
    lemma_take_ok(v, s);
    lemma_return_ok(after_take(v, s), next_taken(v));
    let w = after_return(after_take(v, s), next_taken(v));
    assert(w.frames =~= v.frames);
    lemma_wrap64_step(v.counters.pages_in_use + 1, -1);
    lemma_wrap64_step(v.counters.free_pages - 1, 1);
    lemma_wrap64_exact(v.counters.pages_in_use as int);
    lemma_wrap64_exact(v.counters.free_pages as int);
}

/// When a pool is closed with nothing out, every page that it obtained has been
/// released to the source once: the owner's pages by the owner, the others when
/// the shared part is closed.
pub proof fn law_closing_releases_every_page(v: PoolView)
    requires
        pool_ok(v),
        !v.closed,
        tally(v.frames, out()) == 0,
    ensures
        pool_ok(after_close(v)),
        after_close(v).log.released + after_close(v).returned.len() - v.opened.released
            == v.log.allocated - v.opened.allocated,
{
}

/// Appending twice is appending once.
pub proof fn law_appends_join(bytes: Seq<u8>, len: nat, x: Seq<u8>, y: Seq<u8>)
    requires
        len + x.len() + y.len() <= bytes.len(),
    ensures
        spliced(spliced(bytes, len as int, x), (len + x.len()) as int, y) == spliced(
            bytes,
            len as int,
            x + y,
        ),
{
    assert(spliced(spliced(bytes, len as int, x), (len + x.len()) as int, y) =~= spliced(
        bytes,
        len as int,
        x + y,
    ));
}

// ---------------------------------------------------------------------------
// Chunks
// ---------------------------------------------------------------------------
/// Two chunks never share a byte.
pub proof fn law_chunks_do_not_overlap(v: ChunkPoolView, j: int, k: int, i: int)
    requires
        chunk_ok(v),
        live(v.claims, j),
        live(v.claims, k),
        j != k,
        v.claims[j]->0.buffer is Some,
        v.claims[j]->0.buffer == v.claims[k]->0.buffer,
        v.claims[j]->0.offset <= i < v.claims[j]->0.offset + v.claims[j]->0.capacity,
    ensures
        !(v.claims[k]->0.offset <= i < v.claims[k]->0.offset + v.claims[k]->0.capacity),
{
    assert(apart(v.claims[j]->0, v.claims[k]->0));
}

/// Writing to one chunk changes no other chunk.
pub proof fn law_writes_stay_within_the_chunk(
    v: ChunkPoolView,
    key: nat,
    data: Seq<u8>,
    other: int,
)
    requires
        chunk_ok(v),
        live(v.claims, key as int),
        data.len() == v.claims[key as int]->0.capacity,
        live(v.claims, other),
        other != key,
    ensures
        claim_bytes(with_bytes(v, key, data), key as int) == data,
        claim_bytes(with_bytes(v, key, data), other) == claim_bytes(v, other),
        chunk_content(with_bytes(v, key, data), other) == chunk_content(v, other),
{
    lemma_with_bytes(v, key, data);
}

/// Allocating a chunk changes no other chunk.
pub proof fn law_allocating_keeps_other_chunks(
    v: ChunkPoolView,
    w: ChunkPoolView,
    size: nat,
    align: nat,
    account: nat,
    charge: nat,
    key: nat,
    other: int,
)
    requires
        chunk_ok(v),
        align > 0,
        allocated(v, w, size, align, account, charge, key),
        live(v.claims, other),
    ensures
        other != key,
        live(w.claims, other),
        w.claims[other] == v.claims[other],
        claim_bytes(w, other) == claim_bytes(v, other),
{
    lemma_allocated(v, w, size, align, account, charge, key);
}

/// Giving up a chunk changes no other chunk.
pub proof fn law_releasing_keeps_other_chunks(v: ChunkPoolView, key: nat, other: int)
    requires
        chunk_ok(v),
        live(v.claims, key as int),
        live(v.claims, other),
        other != key,
    ensures
        live(after_chunk_release(v, key).claims, other),
        after_chunk_release(v, key).claims[other] == v.claims[other],
        claim_bytes(after_chunk_release(v, key), other) == claim_bytes(v, other),
{
    lemma_chunk_release_keeps(v, key);
}

/// A chunk that is packed shares no byte with any chunk held: writing all of either
/// changes no byte of the other. Where both lie on one page, it begins at or after
/// the end of the other and ends within the page.
pub proof fn law_packed_chunks_share_no_byte(
    v: ChunkPoolView,
    w: ChunkPoolView,
    size: nat,
    align: nat,
    account: nat,
    charge: nat,
    key: nat,
    other: int,
    data: Seq<u8>,
    other_data: Seq<u8>,
)
    requires
        chunk_ok(v),
        chunk_ok(w),
        align > 0,
        size_class(v.pages.page_size, size) is Packed,
        allocated(v, w, size, align, account, charge, key),
        live(v.claims, other),
        data.len() == size,
        other_data.len() == v.claims[other]->0.capacity,
    ensures
        ({
            let c = w.claims[key as int]->0;
            let d = w.claims[other]->0;
            &&& live(w.claims, key as int)
            &&& live(w.claims, other)
            &&& other != key
            &&& c.capacity == size
            &&& c.offset + c.capacity <= w.pages.page_size
            &&& c.buffer == d.buffer ==> d.offset + d.capacity <= c.offset
            &&& claim_bytes(w, other) == claim_bytes(v, other)
            &&& claim_bytes(with_bytes(w, key, data), key as int) == data
            &&& claim_bytes(with_bytes(w, key, data), other) == claim_bytes(w, other)
            &&& claim_bytes(with_bytes(w, other as nat, other_data), key as int) == claim_bytes(
                w,
                key as int,
            )
        }),
{
    lemma_allocated(v, w, size, align, account, charge, key);
    lemma_retired(v);
    lemma_with_bytes(w, key, data);
    lemma_with_bytes(w, other as nat, other_data);
    let r = retired(v);
    let c = w.claims[key as int]->0;
    assert(claim_ok(w.pages.page_size, w.buffers, c));
    assert(claim_ok(v.pages.page_size, v.buffers, v.claims[other]->0));
    assert(live(r.claims, other));
    assert(claim_ok(r.pages.page_size, r.buffers, r.claims[other]->0));
    assert(live(w.buffers, c.buffer->0 as int));
    if has_room(v, size, align) {
        let o = v.open->0;
        lemma_aligned_offset(v.buffers[o.buffer as int]->0.site.address, o.write_offset, align);
    }
}

/// A chunk packed into the open page starts at an address that is a multiple of the
/// alignment asked for, at or after the end of every chunk on the page, with less padding than the
/// alignment, and ends within the page.
pub proof fn law_packed_chunk_is_placed_behind_the_others(
    v: ChunkPoolView,
    key: nat,
    size: nat,
    align: nat,
    account: nat,
    charge: nat,
    other: int,
)
    requires
        chunk_ok(v),
        align > 0,
        key <= v.claims.len(),
        !live(v.claims, key as int),
        has_room(v, size, align),
        live(v.claims, other),
        v.claims[other]->0.buffer == Some(v.open->0.buffer),
    ensures
        ({
            let w = with_packed(v, key, size, next_offset(v, align), account, charge);
            let c = w.claims[key as int]->0;
            &&& c.buffer == Some(v.open->0.buffer)
            &&& claim_address(w, key as int) % align == 0
            &&& v.open->0.write_offset <= c.offset < v.open->0.write_offset + align
            &&& v.claims[other]->0.offset + v.claims[other]->0.capacity <= c.offset
            &&& c.offset + c.capacity == w.open->0.write_offset <= v.pages.page_size
        }),
{
    let o = v.open->0;
    assert(live(v.buffers, o.buffer as int));
    lemma_aligned_offset(v.buffers[o.buffer as int]->0.site.address, o.write_offset, align);
}

/// A packed chunk lies on a page, the one that is open then, wherever the source
/// aligns its pages to a multiple of the alignment asked for, and wherever the page
/// has room for the chunk and the padding that the alignment can cost.
pub proof fn law_packed_chunks_lie_on_the_open_page(
    v: ChunkPoolView,
    w: ChunkPoolView,
    size: nat,
    align: nat,
    account: nat,
    charge: nat,
    key: nat,
)
    requires
        chunk_ok(v),
        chunk_ok(w),
        align > 0,
        size_class(v.pages.page_size, size) is Packed,
        allocated(v, w, size, align, account, charge, key),
        v.pages.page_align % align == 0 || size + (align - 1) <= v.pages.page_size,
    ensures
        w.open is Some,
        w.claims[key as int]->0.buffer == Some(w.open->0.buffer),
        w.claims[key as int]->0.offset + size == w.open->0.write_offset,
{
    lemma_allocated(v, w, size, align, account, charge, key);
    lemma_retired(v);
    if !has_room(v, size, align) {
        let x = w.buffers[w.open->0.buffer as int]->0;
        let o = opened_page(retired(v), w.open->0.buffer, x.bytes, x.site);
        lemma_aligned_offset(x.site.address, 0, align);
        if v.pages.page_align % align == 0 {
            assert(live(w.buffers, w.open->0.buffer as int));
            lemma_multiple_of_multiple(x.site.address, v.pages.page_align, align);
        }
        assert(has_room(o, size, align));
    }
}

/// A chunk starts at an address that is a multiple of the alignment asked for. A
/// packed chunk does if there is an allocation that does. A chunk with a page of its
/// own starts where its page does: at a multiple of what the source aligns pages to.
pub proof fn law_chunks_are_aligned(
    v: ChunkPoolView,
    w: ChunkPoolView,
    size: nat,
    align: nat,
    account: nat,
    charge: nat,
    key: nat,
)
    requires
        chunk_ok(v),
        chunk_ok(w),
        is_pow2(align as int),
        allocated(v, w, size, align, account, charge, key),
    ensures
        aligned_as_served(w, key, size, align),
{
    lemma_aligned_as_served(v, w, size, align, account, charge, key);
}

/// A chunk allocated with the default alignment starts at a multiple of the size
/// of a pointer, however it is served and whatever the source.
pub proof fn law_chunks_are_aligned_like_pointers(
    v: ChunkPoolView,
    w: ChunkPoolView,
    size: nat,
    account: nat,
    charge: nat,
    key: nat,
)
    requires
        chunk_ok(v),
        chunk_ok(w),
        size > 0,
        allocated(v, w, size, pointer_align(), account, charge, key),
    ensures
        claim_address(w, key as int) % pointer_align() == 0,
{
    reveal_with_fuel(is_pow2, 5);
    law_chunks_are_aligned(v, w, size, pointer_align(), account, charge, key);
}

/// As long as a chunk is held, the buffer it stands on is kept, and a page of the
/// pool stays out of the pool.
pub proof fn law_buffer_is_kept_while_a_chunk_is(v: ChunkPoolView, k: int)
    requires
        chunk_ok(v),
        live(v.claims, k),
        v.claims[k]->0.buffer is Some,
    ensures
        live(v.buffers, v.claims[k]->0.buffer->0 as int),
        v.buffers[v.claims[k]->0.buffer->0 as int]->0.origin matches Origin::Pool { serial }
            ==> serial < v.pages.frames.len() && v.pages.frames[serial as int] is Held,
{
    assert(claim_ok(v.pages.page_size, v.buffers, v.claims[k]->0));
}

/// A page that is not open comes back when the last chunk on it is given up.
pub proof fn law_page_returns_with_the_last_chunk(v: ChunkPoolView, key: nat)
    requires
        chunk_ok(v),
        live(v.claims, key as int),
        v.claims[key as int]->0.handles == 1,
        v.claims[key as int]->0.buffer is Some,
        v.buffers[v.claims[key as int]->0.buffer->0 as int]->0.origin is Pool,
        v.open is Some ==> v.open->0.buffer != v.claims[key as int]->0.buffer->0,
        forall|k: int| #[trigger]
            live(v.claims, k) && k != key ==> v.claims[k]->0.buffer
                != v.claims[key as int]->0.buffer,
    ensures
        ({
            let b = v.claims[key as int]->0.buffer->0;
            let w = after_chunk_release(v, key);
            &&& !live(w.buffers, b as int)
            &&& w.pages == after_return(v.pages, v.buffers[b as int]->0.origin->serial)
        }),
{
    let c = v.claims[key as int]->0;
    let b = c.buffer->0;
    assert(claim_ok(v.pages.page_size, v.buffers, c));
    let rest = v.claims.update(key as int, None);
    lemma_tally_update(v.claims, key as int, None, on(b));
    assert forall|k: int| 0 <= k < rest.len() implies on(b)(#[trigger] rest[k]) == 0 by {
        if k != key {
            if live(v.claims, k) {
                assert(v.claims[k]->0.buffer != c.buffer);
            }
        }
    }
    crate::tally::lemma_tally_zero(rest, on(b));
    assert(live(v.buffers, b as int));
}

/// A request is served in exactly one way, decided by its size alone.
pub proof fn law_size_decides_the_class(page_size: nat, size: nat)
    ensures
        size_class(page_size, size) is Zero <==> size == 0,
        size_class(page_size, size) is Packed <==> 0 < size <= page_size / 2,
        size_class(page_size, size) is Dedicated <==> 0 < size && page_size / 2 < size
            <= page_size,
        size_class(page_size, size) is Oversized <==> page_size < size && 0 < size,
{
}

/// Chunks of no bytes and oversized chunks leave the page pool alone. A chunk with
/// a page of its own takes one page. A packed chunk takes one, to be the open page,
/// where the page that was open has no room.
pub proof fn law_pages_taken_by_class(
    v: ChunkPoolView,
    w: ChunkPoolView,
    size: nat,
    align: nat,
    account: nat,
    charge: nat,
    key: nat,
)
    requires
        allocated(v, w, size, align, account, charge, key),
    ensures
        size_class(v.pages.page_size, size) is Zero ==> w.pages == v.pages && w.buffers
            == v.buffers,
        size_class(v.pages.page_size, size) is Oversized ==> w.pages == v.pages,
        size_class(v.pages.page_size, size) is Dedicated ==> w.pages == after_take(
            v.pages,
            w.buffers[w.claims[key as int]->0.buffer->0 as int]->0.site,
        ),
        size_class(v.pages.page_size, size) is Packed && has_room(v, size, align) ==> w.pages
            == v.pages,
        size_class(v.pages.page_size, size) is Packed && !has_room(v, size, align) ==> w.pages
            == after_take(
            retired(v).pages,
            w.buffers[w.open->0.buffer as int]->0.site,
        ),
{
}

/// Every allocation is counted once in total and once in use, and once in its own
/// class, unless it has no bytes.
pub proof fn law_allocations_are_counted_by_class(
    v: ChunkPoolView,
    w: ChunkPoolView,
    size: nat,
    align: nat,
    account: nat,
    charge: nat,
    key: nat,
)
    requires
        allocated(v, w, size, align, account, charge, key),
    ensures
        w.counters == counted(v.counters, size_class(v.pages.page_size, size), size),
        w.counters.total_chunks == wrap64(v.counters.total_chunks + 1),
        w.counters.chunks_in_use == wrap64(v.counters.chunks_in_use + 1),
{
}

/// The counters of the classes add up to that of all chunks.
proof fn lemma_sum_of_classes(c: ChunkCounters, m: ClassCounts)
    requires
        made_ok(c, m),
    ensures
        c.total_chunks == wrap64(
            c.packed_allocations + c.dedicated_allocations + c.oversized_allocations + m.empty,
        ),
        all_made(m) <= u64::MAX ==> {
            &&& c.total_chunks == all_made(m)
            &&& c.total_chunks == c.packed_allocations + c.dedicated_allocations
                + c.oversized_allocations + m.empty
        },
{
    let p = m.packed as int;
    let d = m.dedicated as int;
    let o = m.oversized as int;
    let e = m.empty as int;
    lemma_wrap64_step(p, wrap64(d) + wrap64(o) + e);
    lemma_wrap64_step(d, p + wrap64(o) + e);
    lemma_wrap64_step(o, p + d + e);
}

/// The chunks allocated so far are those that were packed, those with a page of
/// their own, those that were oversized, and those of no bytes; and there are no
/// fewer of them than are in use.
pub proof fn law_total_chunks_is_the_sum_of_the_classes(v: ChunkPoolView)
    requires
        chunk_ok(v),
    ensures
        v.counters.total_chunks == wrap64(
            v.counters.packed_allocations + v.counters.dedicated_allocations
                + v.counters.oversized_allocations + v.made.empty,
        ),
        all_made(v.made) <= u64::MAX ==> {
            &&& v.counters.total_chunks == v.counters.packed_allocations
                + v.counters.dedicated_allocations + v.counters.oversized_allocations
                + v.made.empty
            &&& v.counters.total_chunks >= v.counters.chunks_in_use
        },
{
    lemma_sum_of_classes(v.counters, v.made);
    if all_made(v.made) <= u64::MAX {
        lemma_wrap64_exact(tally(v.claims, in_use()) as int);
    }
}

/// As many chunks have been allocated, in total and by class.
pub open spec fn same_counts(v: ChunkPoolView, w: ChunkPoolView) -> bool {
    &&& w.made == v.made
    &&& w.counters.total_chunks == v.counters.total_chunks
    &&& w.counters.packed_allocations == v.counters.packed_allocations
    &&& w.counters.dedicated_allocations == v.counters.dedicated_allocations
    &&& w.counters.oversized_allocations == v.counters.oversized_allocations
}

/// The numbers of chunks allocated so far, in total and by class, never fall: an
/// allocation raises the total and one class by one, and nothing else changes them.
pub proof fn law_allocation_counts_never_fall(
    v: ChunkPoolView,
    w: ChunkPoolView,
    size: nat,
    align: nat,
    account: nat,
    charge: nat,
    key: nat,
    data: Seq<u8>,
    len: nat,
)
    requires
        allocated(v, w, size, align, account, charge, key),
    ensures
        w.made == made_more(v.made, size_class(v.pages.page_size, size)),
        all_made(w.made) == all_made(v.made) + 1,
        w.made.empty == v.made.empty + if size == 0 {
            1nat
        } else {
            0
        },
        same_counts(v, with_bytes(v, key, data)),
        same_counts(v, with_seal(v, key, len)),
        same_counts(v, with_chunk_handle(v, key)),
        same_counts(v, after_chunk_release(v, key)),
        same_counts(v, after_chunk_close(v)),
{
}

/// The capacity of a claim that is larger than a page.
pub open spec fn larger_than(page_size: nat) -> spec_fn(Option<ClaimView>) -> nat {
    |c: Option<ClaimView>|
        if c is Some && c->0.capacity > page_size {
            c->0.capacity
        } else {
            0
        }
}

/// The oversized bytes in use are the sum of the sizes of the chunks held, sealed or
/// not, that are larger than a page, each counted once however many handles it has:
/// exactly, as long as the sum fits the counter.
pub proof fn law_oversized_bytes_are_those_of_chunks_larger_than_a_page(v: ChunkPoolView)
    requires
        chunk_ok(v),
    ensures
        ({
            let sum = tally(v.claims, larger_than(v.pages.page_size));
            &&& v.counters.oversized_bytes_in_use == wrap64(sum as int)
            &&& sum <= u64::MAX ==> v.counters.oversized_bytes_in_use == sum
        }),
{
    let n = v.pages.page_size;
    assert forall|k: int| 0 <= k < v.claims.len() implies oversized()(#[trigger] v.claims[k])
        == larger_than(n)(v.claims[k]) by {
        if live(v.claims, k) {
            assert(claim_ok(n, v.buffers, v.claims[k]->0));
        }
    }
    lemma_tally_agree(v.claims, oversized(), larger_than(n));
}

/// Allocations of up to a page leave the oversized bytes in use as they are.
pub proof fn law_only_oversized_chunks_count_as_oversized(
    v: ChunkPoolView,
    w: ChunkPoolView,
    size: nat,
    align: nat,
    account: nat,
    charge: nat,
    key: nat,
)
    requires
        allocated(v, w, size, align, account, charge, key),
        size <= v.pages.page_size,
    ensures
        w.counters.oversized_bytes_in_use == v.counters.oversized_bytes_in_use,
        w.counters.oversized_allocations == v.counters.oversized_allocations,
{
}

/// The chunks in use are exactly the chunks held, sealed or not, each counted once
/// however many handles it has. There are none exactly if nothing is held.
pub proof fn law_chunks_in_use_are_the_chunks_held<S: PageSource>(pool: &ChunkPool<S>)
    requires
        pool.wf(),
    ensures
        pool@.counters.chunks_in_use == tally(pool@.claims, in_use()),
        pool@.counters.chunks_in_use == 0 <==> forall|k: int| !#[trigger] live(pool@.claims, k),
{
    pool.lemma_wf();
    let claims = pool@.claims;
    lemma_tally_at_most(claims, in_use());
    lemma_wrap64_exact(tally(claims, in_use()) as int);
    if tally(claims, in_use()) == 0 {
        assert forall|k: int| !#[trigger] live(claims, k) by {
            if live(claims, k) {
                lemma_tally_member(claims, k, in_use());
            }
        }
    }
    if forall|k: int| !#[trigger] live(claims, k) {
        assert forall|k: int| 0 <= k < claims.len() implies in_use()(#[trigger] claims[k])
            == 0 by {
            assert(!live(claims, k));
        }
        lemma_tally_zero(claims, in_use());
    }
}

/// Taking a chunk off the counters of what is in use undoes counting it.
proof fn lemma_counted_and_taken_off(c: ChunkCounters, page_size: nat, size: nat)
    ensures
        ({
            let d = counted(c, size_class(page_size, size), size);
            let oversized = if size > page_size {
                size
            } else {
                0
            };
            &&& wrap64(d.chunks_in_use - 1) == c.chunks_in_use
            &&& wrap64(d.oversized_bytes_in_use - oversized) == c.oversized_bytes_in_use
        }),
{
    lemma_wrap64_step(c.chunks_in_use + 1, -1);
    lemma_wrap64_step(c.oversized_bytes_in_use + size, -size);
    lemma_wrap64_exact(c.chunks_in_use as int);
    lemma_wrap64_exact(c.oversized_bytes_in_use as int);
}

/// Giving up a chunk right after it was allocated brings the counters of what is
/// in use back to what they were, however it was served.
#[verifier::spinoff_prover]
pub proof fn law_release_undoes_chunk_allocation(
    v: ChunkPoolView,
    w: ChunkPoolView,
    size: nat,
    align: nat,
    account: nat,
    charge: nat,
    key: nat,
)
    requires
        chunk_ok(v),
        chunk_ok(w),
        align > 0,
        allocated(v, w, size, align, account, charge, key),
    ensures
        ({
            let x = after_chunk_release(w, key);
            &&& chunk_ok(x)
            &&& x.counters == (ChunkCounters {
                chunks_in_use: v.counters.chunks_in_use,
                oversized_bytes_in_use: v.counters.oversized_bytes_in_use,
                ..w.counters
            })
            &&& others_kept(v, x, key)
            &&& !live(x.claims, key as int)
        }),
{
    lemma_allocated(v, w, size, align, account, charge, key);
    lemma_chunk_release(w, key);
    lemma_chunk_release_keeps(w, key);
    let x = after_chunk_release(w, key);
    assert(claim_ok(w.pages.page_size, w.buffers, w.claims[key as int]->0));
    lemma_counted_and_taken_off(v.counters, v.pages.page_size, size);
    assert forall|k: int| #[trigger] live(v.claims, k) && k != key implies live(x.claims, k)
        && x.claims[k] == v.claims[k] && claim_bytes(x, k) == claim_bytes(v, k) by {
        assert(live(w.claims, k));
    }
}

/// Giving up a clone of a chunk undoes the cloning.
pub proof fn law_release_undoes_chunk_clone(v: ChunkPoolView, key: nat)
    requires
        chunk_ok(v),
        live(v.claims, key as int),
    ensures
        after_chunk_release(with_chunk_handle(v, key), key) == v,
{
    assert(claim_ok(v.pages.page_size, v.buffers, v.claims[key as int]->0));
    let w = after_chunk_release(with_chunk_handle(v, key), key);
    assert(w.claims =~= v.claims);
}

/// Sealing a chunk keeps its bytes, and those of every other chunk.
pub proof fn law_sealing_keeps_the_bytes(v: ChunkPoolView, key: nat, len: nat, k: int)
    requires
        live(v.claims, key as int),
        live(v.claims, k),
        len <= v.claims[key as int]->0.capacity,
    ensures
        claim_bytes(with_seal(v, key, len), k) == claim_bytes(v, k),
        chunk_content(with_seal(v, key, len), key as int) == claim_bytes(v, key as int).subrange(
            0,
            len as int,
        ),
{
}

/// When a chunk pool is closed and every chunk is given up, every page that it
/// obtained has been released to the source once.
pub proof fn law_finishing_releases_every_page(v: ChunkPoolView)
    requires
        chunk_ok(v),
        v.pages.closed,
        forall|k: int| !#[trigger] live(v.claims, k),
    ensures
        v.pages.log.released + v.pages.returned.len() - v.pages.opened.released
            == v.pages.log.allocated - v.pages.opened.allocated,
{
    lemma_nothing_out(v);
}

/// Closing a chunk pool leaves every chunk as it is.
pub proof fn law_closing_keeps_the_chunks(v: ChunkPoolView, k: int)
    requires
        chunk_ok(v),
        !v.pages.closed,
        live(v.claims, k),
    ensures
        after_chunk_close(v).claims == v.claims,
        claim_bytes(after_chunk_close(v), k) == claim_bytes(v, k),
{
    lemma_retired(v);
    crate::packing::lemma_retired_keeps(v);
    let r = retired(v);
    assert(claim_bytes(r, k) == claim_bytes(v, k));
}

// ---------------------------------------------------------------------------
// Pools and ledgers together
// ---------------------------------------------------------------------------
/// Every chunk of the pool stands open in the ledger for its capacity, each under
/// a charge of its own.
pub open spec fn chunks_charged(v: ChunkPoolView, ledger: LedgerView) -> bool {
    &&& forall|k: int| #[trigger]
        live(v.claims, k) ==> charged(
            ledger,
            v.claims[k]->0.charge,
            v.claims[k]->0.account,
            Grain::Chunk,
            v.claims[k]->0.capacity,
        )
    &&& forall|j: int, k: int|
        #![trigger live(v.claims, j), live(v.claims, k)]
        live(v.claims, j) && live(v.claims, k) && j != k ==> v.claims[j]->0.charge
            != v.claims[k]->0.charge
}

/// Allocating a chunk and charging for it keeps every chunk charged.
pub proof fn law_allocated_chunks_are_charged(
    v: ChunkPoolView,
    w: ChunkPoolView,
    ledger: LedgerView,
    size: nat,
    align: nat,
    account: nat,
    key: nat,
)
    requires
        chunk_ok(v),
        align > 0,
        account < ledger.accounts.len(),
        chunks_charged(v, ledger),
        allocated(v, w, size, align, account, ledger.charges.len(), key),
    ensures
        chunks_charged(w, ledger_after_allocate(ledger, account, Grain::Chunk, size)),
{
    lemma_allocated(v, w, size, align, account, ledger.charges.len(), key);
    lemma_retired(v);
    assert forall|k: int| #[trigger] live(w.claims, k) && k != key implies live(v.claims, k) by {}
}

/// Giving up a chunk and settling its charge with the last handle keeps every
/// other chunk charged.
pub proof fn law_remaining_chunks_stay_charged(v: ChunkPoolView, ledger: LedgerView, key: nat)
    requires
        chunk_ok(v),
        live(v.claims, key as int),
        chunks_charged(v, ledger),
    ensures
        ({
            let c = v.claims[key as int]->0;
            let w = after_chunk_release(v, key);
            if c.handles == 1 {
                chunks_charged(w, ledger_after_release(ledger, c.charge))
            } else {
                chunks_charged(w, ledger)
            }
        }),
{
    let c = v.claims[key as int]->0;
    let w = after_chunk_release(v, key);
    assert(claim_ok(v.pages.page_size, v.buffers, c));
    assert forall|k: int| #[trigger] live(w.claims, k) implies live(v.claims, k)
        && w.claims[k]->0.charge == v.claims[k]->0.charge && w.claims[k]->0.account
        == v.claims[k]->0.account && w.claims[k]->0.capacity == v.claims[k]->0.capacity && (k
        == key ==> c.handles != 1) by {}
}

/// Every sealed page of the pool stands open in the ledger for a page, each under a
/// charge of its own.
pub open spec fn pages_charged(v: PoolView, ledger: LedgerView) -> bool {
    &&& forall|k: int| #[trigger]
        live(v.sealed, k) ==> charged(
            ledger,
            v.sealed[k]->0.charge,
            v.sealed[k]->0.account,
            Grain::Page,
            v.page_size,
        )
    &&& forall|j: int, k: int|
        #![trigger live(v.sealed, j), live(v.sealed, k)]
        live(v.sealed, j) && live(v.sealed, k) && j != k ==> v.sealed[j]->0.charge
            != v.sealed[k]->0.charge
}

/// Taking a page, sealing it and charging for it keeps every page charged.
pub proof fn law_sealed_pages_are_charged(
    v: PoolView,
    ledger: LedgerView,
    account: nat,
    key: nat,
    content: Seq<u8>,
    s: Site,
)
    requires
        account < ledger.accounts.len(),
        pages_charged(v, ledger),
        key <= v.sealed.len(),
        !live(v.sealed, key as int),
    ensures
        pages_charged(
            after_seal(
                after_take(v, s),
                key,
                SealedPage {
                    content,
                    site: s,
                    serial: next_taken(v),
                    account,
                    charge: ledger.charges.len(),
                    handles: 1,
                },
            ),
            ledger_after_allocate(ledger, account, Grain::Page, v.page_size),
        ),
{
    let p = SealedPage {
        content,
        site: s,
        serial: next_taken(v),
        account,
        charge: ledger.charges.len(),
        handles: 1,
    };
    let w = after_seal(after_take(v, s), key, p);
    assert forall|k: int| #[trigger] live(w.sealed, k) && k != key implies live(v.sealed, k)
        && w.sealed[k] == v.sealed[k] by {}
}

/// Giving up a page and settling its charge with the last handle keeps every other
/// page charged.
pub proof fn law_remaining_pages_stay_charged(v: PoolView, ledger: LedgerView, key: nat)
    requires
        live(v.sealed, key as int),
        pages_charged(v, ledger),
    ensures
        ({
            let p = v.sealed[key as int]->0;
            let w = after_drop(v, key);
            if p.handles == 1 {
                pages_charged(w, ledger_after_release(ledger, p.charge))
            } else {
                pages_charged(w, ledger)
            }
        }),
{
    let p = v.sealed[key as int]->0;
    let w = after_drop(v, key);
    assert forall|k: int| #[trigger] live(w.sealed, k) implies live(v.sealed, k)
        && w.sealed[k]->0.charge == v.sealed[k]->0.charge && w.sealed[k]->0.account
        == v.sealed[k]->0.account && (k == key ==> p.handles != 1) by {}
}

} // verus!
