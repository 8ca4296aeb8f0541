//! Pools of fixed-size pages.
use vstd::prelude::*;

use crate::counter::{count_down, count_up, wrap64};
use crate::memory::{write_at, PageBuf};
use crate::page::{Page, PageBuilder, PageInner};
use crate::slots::Slots;
use crate::source::{HeapSource, POINTER_SIZE, PageSource, SourceLog};
use crate::tally::tally;
use crate::tenant::{Ledger, Tenant};
#[allow(unused_imports)]
use crate::counter::lemma_wrap64_step;
#[allow(unused_imports)]
use crate::memory::{site, zeros, Site};
#[allow(unused_imports)]
use crate::page::{after_seal, BuilderView};
#[allow(unused_imports)]
use crate::slots::{live, Slot};
#[allow(unused_imports)]
use crate::source::{heap_page_align, heap_page_size};
#[allow(unused_imports)]
use crate::tally::{lemma_tally_push, lemma_tally_update};
#[allow(unused_imports)]
use crate::tenant::{ledger_after_allocate, Grain, LedgerView};

verus! {

// ---------------------------------------------------------------------------
// Counters
// ---------------------------------------------------------------------------
/// The readings of a pool's counters.
pub struct PoolCounters {
    pub allocations_from_heap: u64,
    pub pages_in_use: u64,
    pub free_pages: u64,
    pub return_queue_drains: u64,
    pub prewarmed_pages: u64,
}

/// Pool-wide counters.
#[derive(Clone, Copy, Debug)]
pub struct PoolStats {
    allocations_from_heap: u64,
    pages_in_use: u64,
    free_pages: u64,
    return_queue_drains: u64,
    prewarmed_pages: u64,
}

impl View for PoolStats {
    type V = PoolCounters;

    closed spec fn view(&self) -> PoolCounters {
        PoolCounters {
            allocations_from_heap: self.allocations_from_heap,
            pages_in_use: self.pages_in_use,
            free_pages: self.free_pages,
            return_queue_drains: self.return_queue_drains,
            prewarmed_pages: self.prewarmed_pages,
        }
    }
}

impl Default for PoolStats {
    /// Counters at zero.
    fn default() -> (stats: Self)
        ensures
            stats@ == (PoolCounters {
                allocations_from_heap: 0,
                pages_in_use: 0,
                free_pages: 0,
                return_queue_drains: 0,
                prewarmed_pages: 0,
            }),
    {
        PoolStats {
            allocations_from_heap: 0,
            pages_in_use: 0,
            free_pages: 0,
            return_queue_drains: 0,
            prewarmed_pages: 0,
        }
    }
}

impl PoolStats {
    /// Pages obtained from the source.
    pub fn allocations_from_heap(&self) -> (n: u64)
        ensures
            n == self@.allocations_from_heap,
    {
        self.allocations_from_heap
    }

    /// Pages that are out of the pool now.
    pub fn pages_in_use(&self) -> (n: u64)
        ensures
            n == self@.pages_in_use,
    {
        self.pages_in_use
    }

    /// Pages on the owner's free list and the return queue together.
    pub fn free_pages(&self) -> (n: u64)
        ensures
            n == self@.free_pages,
    {
        self.free_pages
    }

    /// How many times the return queue was drained because the owner's free list
    /// was empty.
    pub fn return_queue_drains(&self) -> (n: u64)
        ensures
            n == self@.return_queue_drains,
    {
        self.return_queue_drains
    }

    /// How many pages have been committed by prewarming.
    pub fn prewarmed_pages(&self) -> (n: u64)
        ensures
            n == self@.prewarmed_pages,
    {
        self.prewarmed_pages
    }
}

// ---------------------------------------------------------------------------
// What a pool is
// ---------------------------------------------------------------------------
/// Where a page of memory that the pool obtained is now.
pub enum Frame {
    /// On a free list.
    Free,
    /// Out of the pool, held by one exclusive owner.
    Held,
    /// Out of the pool, behind a sealed page.
    Sealed,
}

/// A page of memory of a pool, with the serial number under which the pool
/// obtained it.
pub struct RawPage<B> {
    pub(crate) buf: B,
    pub(crate) serial: Ghost<nat>,
}

/// A sealed page: what it holds, on which memory, who is charged for it, and how
/// many handles share it.
pub struct SealedPage {
    pub content: Seq<u8>,
    pub site: Site,
    pub serial: nat,
    pub account: nat,
    pub charge: nat,
    pub handles: nat,
}

/// A pool as a value.
///
/// Pages of memory are named by serial numbers: the page obtained first from the
/// source is number 0. `sites` says of each which memory it is, and `frames` where
/// it is kept; `owned` and `returned` list the free ones, each list ending with the
/// page that is taken next. Once the owner is gone, `owned` are the pages that the
/// owner released.
pub struct PoolView {
    pub page_size: nat,
    pub page_align: nat,
    pub counters: PoolCounters,
    pub sites: Seq<Site>,
    pub frames: Seq<Frame>,
    pub owned: Seq<nat>,
    pub returned: Seq<nat>,
    pub sealed: Seq<Option<SealedPage>>,
    pub opened: SourceLog,
    pub log: SourceLog,
    pub closed: bool,
}

/// One for each page that is out of the pool.
pub open spec fn out() -> spec_fn(Frame) -> nat {
    |f: Frame|
        if f is Free {
            0
        } else {
            1
        }
}

/// `list` names free pages, none of them twice.
pub open spec fn free_list(frames: Seq<Frame>, list: Seq<nat>) -> bool {
    &&& forall|i: int|
        0 <= i < list.len() ==> (#[trigger] list[i]) < frames.len()
            && frames[list[i] as int] is Free
    &&& forall|i: int, j: int|
        0 <= i < j < list.len() ==> (#[trigger] list[i]) != (#[trigger] list[j])
}

/// The invariant of a pool.
///
/// A page is in one place only: on one of the two lists, once, or out of the
/// pool; and every page is in one of these places. Sealed pages stand on
/// different pages of memory. The counters agree with this.
pub open spec fn pool_ok(v: PoolView) -> bool {
    &&& POINTER_SIZE <= v.page_size <= isize::MAX
    &&& 0 < v.page_align
    &&& v.page_align % (POINTER_SIZE as nat) == 0
    &&& v.sites.len() == v.frames.len()
    &&& forall|i: int|
        0 <= i < v.sites.len() ==> (#[trigger] v.sites[i]).address % v.page_align == 0
            && v.sites[i].measured
    &&& free_list(v.frames, v.owned)
    &&& free_list(v.frames, v.returned)
    &&& forall|i: int, j: int|
        0 <= i < v.owned.len() && 0 <= j < v.returned.len() ==> (#[trigger] v.owned[i]) != (
        #[trigger] v.returned[j])
    &&& v.frames.len() == tally(v.frames, out()) + v.owned.len() + v.returned.len()
    &&& forall|k: int| #[trigger]
        live(v.sealed, k) ==> {
            let p = v.sealed[k]->0;
            &&& p.content.len() <= v.page_size
            &&& p.serial < v.frames.len()
            &&& p.site == v.sites[p.serial as int]
            &&& v.frames[p.serial as int] is Sealed
            &&& p.handles >= 1
        }
    &&& forall|j: int, k: int|
        #![trigger live(v.sealed, j), live(v.sealed, k)]
        live(v.sealed, j) && live(v.sealed, k) && j != k ==> v.sealed[j]->0.serial
            != v.sealed[k]->0.serial
    &&& v.counters.allocations_from_heap == wrap64(v.frames.len() as int)
    &&& v.counters.pages_in_use == wrap64(tally(v.frames, out()) as int)
    &&& v.counters.free_pages == wrap64((v.owned.len() + v.returned.len()) as int)
    &&& v.log.allocated == v.opened.allocated + v.frames.len()
    &&& v.log.released == v.opened.released + if v.closed {
        v.owned.len()
    } else {
        0
    }
}

// ---------------------------------------------------------------------------
// What the operations do
// ---------------------------------------------------------------------------
/// A pool over a source, as it is opened.
pub open spec fn opened_pool(page_size: nat, page_align: nat, log: SourceLog) -> PoolView {
    PoolView {
        page_size,
        page_align,
        counters: PoolCounters {
            allocations_from_heap: 0,
            pages_in_use: 0,
            free_pages: 0,
            return_queue_drains: 0,
            prewarmed_pages: 0,
        },
        sites: Seq::empty(),
        frames: Seq::empty(),
        owned: Seq::empty(),
        returned: Seq::empty(),
        sealed: Seq::empty(),
        opened: log,
        log,
        closed: false,
    }
}

/// Whether the next page to be taken has to come from the source.
pub open spec fn takes_fresh(v: PoolView) -> bool {
    v.owned.len() == 0 && v.returned.len() == 0
}

/// The page to be taken next: the one last put on the owner's list; with that
/// list empty the one last returned; with both empty a new one.
pub open spec fn next_taken(v: PoolView) -> nat {
    if v.owned.len() > 0 {
        v.owned.last()
    } else if v.returned.len() > 0 {
        v.returned.last()
    } else {
        v.frames.len()
    }
}

/// Whether the page to be taken next can be the memory `s`: a page that the pool
/// has is where it was when the pool obtained it, and a new one is aligned, at an
/// address that was read off it, and not prefaulted.
pub open spec fn site_for(v: PoolView, s: Site) -> bool {
    if takes_fresh(v) {
        s.address % v.page_align == 0 && s.measured && s.prefaults == 0
    } else {
        s == v.sites[next_taken(v) as int]
    }
}

/// The pool after a page is taken, which is the memory `s`. An empty owner's list
/// takes over the whole return queue first.
pub open spec fn after_take(v: PoolView, s: Site) -> PoolView {
    let in_use = wrap64(v.counters.pages_in_use + 1);
    if v.owned.len() > 0 {
        PoolView {
            counters: PoolCounters {
                pages_in_use: in_use,
                free_pages: wrap64(v.counters.free_pages - 1),
                ..v.counters
            },
            frames: v.frames.update(v.owned.last() as int, Frame::Held),
            owned: v.owned.drop_last(),
            ..v
        }
    } else if v.returned.len() > 0 {
        PoolView {
            counters: PoolCounters {
                pages_in_use: in_use,
                free_pages: wrap64(v.counters.free_pages - 1),
                return_queue_drains: wrap64(v.counters.return_queue_drains + 1),
                ..v.counters
            },
            frames: v.frames.update(v.returned.last() as int, Frame::Held),
            owned: v.returned.drop_last(),
            returned: Seq::empty(),
            ..v
        }
    } else {
        PoolView {
            counters: PoolCounters {
                pages_in_use: in_use,
                allocations_from_heap: wrap64(v.counters.allocations_from_heap + 1),
                ..v.counters
            },
            sites: v.sites.push(s),
            frames: v.frames.push(Frame::Held),
            log: SourceLog { allocated: v.log.allocated + 1, ..v.log },
            ..v
        }
    }
}

/// The pool after page `serial` comes back: it joins the return queue.
pub open spec fn after_return(v: PoolView, serial: nat) -> PoolView {
    PoolView {
        counters: PoolCounters {
            pages_in_use: wrap64(v.counters.pages_in_use - 1),
            free_pages: wrap64(v.counters.free_pages + 1),
            ..v.counters
        },
        frames: v.frames.update(serial as int, Frame::Free),
        returned: v.returned.push(serial),
        ..v
    }
}

/// The pool after new pages, which are the memory `new`, are put on the owner's
/// list.
pub open spec fn after_prewarm(v: PoolView, new: Seq<Site>) -> PoolView {
    let n = new.len();
    PoolView {
        counters: PoolCounters {
            allocations_from_heap: wrap64(v.counters.allocations_from_heap + n),
            free_pages: wrap64(v.counters.free_pages + n),
            prewarmed_pages: wrap64(v.counters.prewarmed_pages + n),
            ..v.counters
        },
        sites: v.sites + new,
        frames: v.frames + Seq::new(n, |i: int| Frame::Free),
        owned: v.owned + Seq::new(n, |i: int| (v.frames.len() + i) as nat),
        log: SourceLog {
            allocated: v.log.allocated + n,
            prefaulted: v.log.prefaulted + n,
            ..v.log
        },
        ..v
    }
}

/// Every page of `new` is aligned, at an address that was read off it, and was
/// prefaulted once.
pub open spec fn committed(v: PoolView, new: Seq<Site>) -> bool {
    forall|i: int|
        0 <= i < new.len() ==> (#[trigger] new[i]).address % v.page_align == 0
            && new[i].measured && new[i].prefaults == 1
}

/// The memory of the pages that `w` has beyond those of `v`.
pub open spec fn new_sites(v: PoolView, w: PoolView) -> Seq<Site> {
    w.sites.subrange(v.sites.len() as int, w.sites.len() as int)
}

/// `w` is the pool `v` after `n` new pages are put on the owner's list, each of
/// them prefaulted once.
pub open spec fn prewarmed(v: PoolView, w: PoolView, n: nat) -> bool {
    let new = new_sites(v, w);
    &&& v.sites.len() <= w.sites.len()
    &&& new.len() == n
    &&& committed(v, new)
    &&& w == after_prewarm(v, new)
}

/// The pool after its owner is gone: the pages on the owner's list went back to
/// the source.
pub open spec fn after_close(v: PoolView) -> PoolView {
    PoolView {
        log: SourceLog { released: v.log.released + v.owned.len(), ..v.log },
        closed: true,
        ..v
    }
}

/// `b` is a builder, with nothing written, of the page taken next from `v`, for
/// which `account` is charged next in the ledger. A page from the source is zero.
pub open spec fn fresh_builder(
    b: BuilderView,
    v: PoolView,
    ledger: LedgerView,
    account: nat,
) -> bool {
    &&& b.bytes.len() == v.page_size
    &&& takes_fresh(v) ==> b.bytes == zeros(v.page_size)
    &&& site_for(v, b.site)
    &&& b.len == 0
    &&& b.serial == next_taken(v)
    &&& b.account == account
    &&& b.charge == ledger.charges.len()
}

/// `w` is the pool `v` after a page is taken, given `content`, and sealed under
/// `key`, for which `account` is charged next in the ledger.
pub open spec fn sealed_from(
    v: PoolView,
    w: PoolView,
    ledger: LedgerView,
    account: nat,
    key: nat,
    content: Seq<u8>,
) -> bool {
    let s = w.sealed[key as int]->0.site;
    &&& key <= v.sealed.len()
    &&& !live(v.sealed, key as int)
    &&& site_for(v, s)
    &&& w == after_seal(
        after_take(v, s),
        key,
        SealedPage {
            content,
            site: s,
            serial: next_taken(v),
            account,
            charge: ledger.charges.len(),
            handles: 1,
        },
    )
}

// ---------------------------------------------------------------------------
// The operations keep the invariant
// ---------------------------------------------------------------------------
/// Taking a page keeps the invariant, and gives out a page that was not out.
pub proof fn lemma_take_ok(v: PoolView, memory: Site)
    requires
        pool_ok(v),
        !v.closed,
        site_for(v, memory),
    ensures
        pool_ok(after_take(v, memory)),
        next_taken(v) < after_take(v, memory).frames.len(),
        after_take(v, memory).frames[next_taken(v) as int] is Held,
        after_take(v, memory).sites[next_taken(v) as int] == memory,
        !takes_fresh(v) ==> next_taken(v) < v.frames.len(),
        !takes_fresh(v) ==> v.frames[next_taken(v) as int] is Free,
{
    let w = after_take(v, memory);
    let s = next_taken(v) as int;
    let n = tally(v.frames, out()) as int;
    lemma_wrap64_step(n, 1);
    lemma_wrap64_step((v.owned.len() + v.returned.len()) as int, -1);
    lemma_wrap64_step(v.frames.len() as int, 1);
    if takes_fresh(v) {
        lemma_tally_push(v.frames, Frame::Held, out());
    } else {
        if v.owned.len() > 0 {
            assert(v.owned[v.owned.len() - 1] == s);
        } else {
            assert(v.returned[v.returned.len() - 1] == s);
        }
        lemma_tally_update(v.frames, s, Frame::Held, out());
    }
    assert forall|k: int| #[trigger] live(w.sealed, k) implies w.frames[w.sealed[k]->0.serial
        as int] is Sealed && w.sealed[k]->0.site == w.sites[w.sealed[k]->0.serial as int] by {
        assert(live(v.sealed, k));
    }
}

/// Bringing a held page back keeps the invariant.
pub proof fn lemma_return_ok(v: PoolView, serial: nat)
    requires
        pool_ok(v),
        serial < v.frames.len(),
        v.frames[serial as int] is Held,
    ensures
        pool_ok(after_return(v, serial)),
{
    let w = after_return(v, serial);
    let n = tally(v.frames, out()) as int;
    lemma_tally_update(v.frames, serial as int, Frame::Free, out());
    lemma_wrap64_step(n, -1);
    lemma_wrap64_step((v.owned.len() + v.returned.len()) as int, 1);
    assert forall|k: int| #[trigger] live(w.sealed, k) implies w.frames[w.sealed[k]->0.serial
        as int] is Sealed by {
        assert(live(v.sealed, k));
    }
}

/// Prewarming by one page is prewarming.
proof fn lemma_prewarm_step(v: PoolView, new: Seq<Site>, s: Site)
    ensures
        after_prewarm(v, new.push(s)) == (PoolView {
            counters: PoolCounters {
                allocations_from_heap: wrap64(v.counters.allocations_from_heap + new.len() + 1),
                free_pages: wrap64(v.counters.free_pages + new.len() + 1),
                prewarmed_pages: wrap64(v.counters.prewarmed_pages + new.len() + 1),
                ..v.counters
            },
            sites: after_prewarm(v, new).sites.push(s),
            frames: after_prewarm(v, new).frames.push(Frame::Free),
            owned: after_prewarm(v, new).owned.push(v.frames.len() + new.len()),
            log: SourceLog {
                allocated: v.log.allocated + new.len() + 1,
                prefaulted: v.log.prefaulted + new.len() + 1,
                ..v.log
            },
            ..v
        }),
{
    let w = after_prewarm(v, new.push(s));
    assert(w.sites =~= after_prewarm(v, new).sites.push(s));
    assert(w.frames =~= after_prewarm(v, new).frames.push(Frame::Free));
    assert(w.owned =~= after_prewarm(v, new).owned.push(v.frames.len() + new.len()));
}

/// Prewarming keeps the invariant.
pub proof fn lemma_prewarm_ok(v: PoolView, new: Seq<Site>)
    requires
        pool_ok(v),
        !v.closed,
        committed(v, new),
    ensures
        pool_ok(after_prewarm(v, new)),
    decreases new.len(),
{
    let n = new.len();
    let w = after_prewarm(v, new);
    if n == 0 {
        assert(w.sites =~= v.sites);
        assert(w.frames =~= v.frames);
        assert(w.owned =~= v.owned);
        lemma_wrap64_step(v.frames.len() as int, 0);
        lemma_wrap64_step((v.owned.len() + v.returned.len()) as int, 0);
    } else {
        let fewer = new.drop_last();
        let u = after_prewarm(v, fewer);
        assert(new =~= fewer.push(new.last()));
        assert(new[n - 1] == new.last());
        lemma_prewarm_ok(v, fewer);
        lemma_prewarm_step(v, fewer, new.last());
        lemma_tally_push(u.frames, Frame::Free, out());
        lemma_wrap64_step(v.frames.len() as int, n as int);
        lemma_wrap64_step((v.owned.len() + v.returned.len()) as int, n as int);
        assert forall|k: int| #[trigger] live(w.sealed, k) implies w.frames[w.sealed[k]->0.serial
            as int] is Sealed && w.sealed[k]->0.serial < w.frames.len() && w.sealed[k]->0.site
            == w.sites[w.sealed[k]->0.serial as int] by {
            assert(live(u.sealed, k));
        }
    }
}

// ---------------------------------------------------------------------------
// The shared part of a pool
// ---------------------------------------------------------------------------
/// The serial numbers of a list of pages.
pub open(crate) spec fn serials<B>(list: Seq<RawPage<B>>) -> Seq<nat> {
    Seq::new(list.len(), |i: int| list[i].serial@)
}

/// A page has `n` bytes, and is the memory that the pool obtained under its serial
/// number.
pub open(crate) spec fn page_at<B: PageBuf>(page: RawPage<B>, n: nat, sites: Seq<Site>) -> bool {
    &&& page.buf.bytes().len() == n
    &&& page.serial@ < sites.len()
    &&& site(page.buf) == sites[page.serial@ as int]
}

/// Every page of a list has `n` bytes, and is the memory that the pool obtained
/// under its serial number.
pub open(crate) spec fn pages_at<B: PageBuf>(
    list: Seq<RawPage<B>>,
    n: nat,
    sites: Seq<Site>,
) -> bool {
    forall|i: int| 0 <= i < list.len() ==> page_at(#[trigger] list[i], n, sites)
}

/// The part of a [`PagePool`] that its pages need: the return queue, the sealed
/// pages, the counters, and the source. It outlives the pool itself as long as
/// pages are out, so that they can still be given back.
pub struct PoolShared<S: PageSource> {
    pub(crate) page_size: usize,
    pub(crate) source: S,
    pub(crate) returned: Vec<RawPage<S::Buf>>,
    pub(crate) stats: PoolStats,
    pub(crate) sealed: Slots<PageInner<S::Buf>>,
    pub(crate) sites: Ghost<Seq<Site>>,
    pub(crate) frames: Ghost<Seq<Frame>>,
    pub(crate) owned: Ghost<Seq<nat>>,
    pub(crate) opened: Ghost<SourceLog>,
    pub(crate) closed: Ghost<bool>,
}

impl<S: PageSource> View for PoolShared<S> {
    type V = PoolView;

    open(crate) spec fn view(&self) -> PoolView {
        PoolView {
            page_size: self.page_size as nat,
            page_align: self.source.page_align(),
            counters: self.stats@,
            sites: self.sites@,
            frames: self.frames@,
            owned: self.owned@,
            returned: serials(self.returned@),
            sealed: sealed_pages(self.sealed@),
            opened: self.opened@,
            log: self.source.log(),
            closed: self.closed@,
        }
    }
}

/// The sealed pages of a table.
pub open(crate) spec fn sealed_pages<B: PageBuf>(table: Seq<Option<Slot<PageInner<B>>>>) -> Seq<
    Option<SealedPage>,
> {
    Seq::new(
        table.len(),
        |k: int|
            match table[k] {
                Some(slot) => Some(slot.value.sealed_page(slot.handles as nat)),
                None => None,
            },
    )
}

impl<S: PageSource> PoolShared<S> {
    /// The pages that are kept here have the pool's page size, and are the memory
    /// that the model says.
    pub open(crate) spec fn inv(&self) -> bool {
        &&& self.source.spec_page_size() == self.page_size
        &&& self.sites@.len() == self.frames@.len()
        &&& pages_at(self.returned@, self.page_size as nat, self.sites@)
        &&& self.sealed.wf()
        &&& forall|k: int|
            #![trigger self.sealed@[k]]
            live(self.sealed@, k) ==> self.sealed@[k]->0.value.wf(
                self.page_size as nat,
                self.sites@,
            )
    }

    /// The pool is in order.
    pub open spec fn wf(&self) -> bool {
        self.inv() && pool_ok(self@)
    }

    /// The size of the pool's pages.
    pub fn page_size(&self) -> (n: usize)
        ensures
            n == self@.page_size,
    {
        self.page_size
    }

    /// The pool's counters.
    pub fn stats(&self) -> (stats: &PoolStats)
        ensures
            stats@ == self@.counters,
    {
        &self.stats
    }

    /// Puts a page on the return queue.
    pub(crate) fn push_return(&mut self, page: RawPage<S::Buf>)
        requires
            old(self).wf(),
            page_at(page, old(self)@.page_size, old(self)@.sites),
            old(self)@.frames[page.serial@ as int] is Held,
        ensures
            final(self).wf(),
            final(self)@ == after_return(old(self)@, page.serial@),
    {
        let ghost serial = page.serial@;
        self.returned.push(page);
        count_down(&mut self.stats.pages_in_use, 1);
        count_up(&mut self.stats.free_pages, 1);
        self.frames = Ghost(self.frames@.update(serial as int, Frame::Free));
        proof {
            assert(self@.returned =~= old(self)@.returned.push(serial));
            assert(self@ == after_return(old(self)@, serial));
            lemma_return_ok(old(self)@, serial);
        }
    }

    /// Ends the pool once its owner is gone and no page is out: the pages on the
    /// return queue go back to the source.
    pub fn close(self) -> (source: S)
        requires
            self.wf(),
            self@.closed,
            tally(self@.frames, out()) == 0,
        ensures
            source.spec_page_size() == self@.page_size,
            source.page_align() == self@.page_align,
            source.log() == (SourceLog {
                released: self@.log.released + self@.returned.len(),
                ..self@.log
            }),
    {
        let mut shared = self;
        while shared.returned.len() > 0
            invariant
                pages_at(shared.returned@, shared.page_size as nat, shared.sites@),
                shared.source.page_align() == self@.page_align,
                shared.page_size == self@.page_size,
                shared.source.spec_page_size() == shared.page_size,
                shared.returned@.len() <= self@.returned.len(),
                shared.source.log() == (SourceLog {
                    released: (self@.log.released + self@.returned.len()
                        - shared.returned@.len()) as nat,
                    ..self@.log
                }),
            decreases shared.returned@.len(),
        {
            let page = shared.returned.pop().unwrap();
            shared.source.release(page.buf);
        }
        shared.source
    }
}

// ---------------------------------------------------------------------------
// The pool
// ---------------------------------------------------------------------------
/// An allocator of fixed-size pages for one worker.
///
/// Pages are taken from the owner's free list; when that is empty, from the
/// return queue, which is taken over whole; when that is empty too, from the
/// source.
pub struct PagePool<S: PageSource = HeapSource> {
    pub(crate) shared: PoolShared<S>,
    pub(crate) local: Vec<RawPage<S::Buf>>,
}

impl<S: PageSource> View for PagePool<S> {
    type V = PoolView;

    open(crate) spec fn view(&self) -> PoolView {
        self.shared@
    }
}

impl PagePool<HeapSource> {
    /// A pool of pages of `page_size` bytes from the global allocator.
    pub fn new(page_size: usize) -> (pool: Self)
        requires
            heap_page_size(page_size),
        ensures
            pool.wf(),
            pool@ == opened_pool(
                page_size as nat,
                heap_page_align(page_size as nat),
                SourceLog { allocated: 0, released: 0, prefaulted: 0 },
            ),
    {
        Self::with_source(HeapSource::new(page_size))
    }

    /// A pool as [`new`](Self::new) makes it, with `num_pages` pages committed.
    pub fn with_capacity(page_size: usize, num_pages: usize) -> (pool: Self)
        requires
            heap_page_size(page_size),
        ensures
            pool.wf(),
            prewarmed(
                opened_pool(
                    page_size as nat,
                    heap_page_align(page_size as nat),
                    SourceLog { allocated: 0, released: 0, prefaulted: 0 },
                ),
                pool@,
                num_pages as nat,
            ),
    {
        let mut pool = Self::new(page_size);
        pool.prewarm(num_pages);
        pool
    }
}

impl<S: PageSource> PagePool<S> {
    /// The owner's free list is as the model has it.
    pub open(crate) spec fn inv(&self) -> bool {
        &&& self.shared.inv()
        &&& pages_at(self.local@, self.shared.page_size as nat, self.shared.sites@)
        &&& serials(self.local@) == if self.shared.closed@ {
            Seq::empty()
        } else {
            self.shared.owned@
        }
    }

    /// The pool is in order and open.
    pub open spec fn wf(&self) -> bool {
        self.inv() && pool_ok(self@) && !self@.closed
    }

    /// A pool over `source`.
    pub fn with_source(source: S) -> (pool: Self)
        requires
            POINTER_SIZE <= source.spec_page_size(),
        ensures
            pool.wf(),
            pool@ == opened_pool(source.spec_page_size(), source.page_align(), source.log()),
    {
        let page_size: usize = source.page_size();
        let ghost log = source.log();
        let ghost page_align = source.page_align();
        let pool = PagePool {
            shared: PoolShared {
                page_size,
                source,
                returned: Vec::new(),
                stats: PoolStats::default(),
                sealed: Slots::new(),
                sites: Ghost(Seq::empty()),
                frames: Ghost(Seq::empty()),
                owned: Ghost(Seq::empty()),
                opened: Ghost(log),
                closed: Ghost(false),
            },
            local: Vec::new(),
        };
        proof {
            assert(serials(pool.local@) =~= Seq::empty());
            assert(pool@ =~= opened_pool(page_size as nat, page_align, log)) by {
                assert(pool@.returned =~= Seq::empty());
                assert(pool@.sealed =~= Seq::empty());
            }
        }
        pool
    }

    /// The size of the pool's pages.
    pub fn page_size(&self) -> (n: usize)
        ensures
            n == self@.page_size,
    {
        self.shared.page_size
    }

    /// The pool's counters.
    pub fn stats(&self) -> (stats: &PoolStats)
        ensures
            stats@ == self@.counters,
    {
        &self.shared.stats
    }

    /// The shared part of the pool, to be read.
    pub fn shared(&self) -> (shared: &PoolShared<S>)
        requires
            self.wf(),
        ensures
            shared.wf(),
            shared@ == self@,
    {
        &self.shared
    }

    /// The shared part of the pool, for pages to be sealed, cloned, and given
    /// back.
    pub fn shared_mut(&mut self) -> (shared: &mut PoolShared<S>)
        requires
            old(self).wf(),
        ensures
            shared.wf(),
            shared@ == old(self)@,
            final(self)@ == final(shared)@,
            ({
                &&& final(shared).wf()
                &&& final(shared)@.page_size == old(self)@.page_size
                &&& final(shared)@.page_align == old(self)@.page_align
                &&& final(shared)@.sites == old(self)@.sites
                &&& final(shared)@.owned == old(self)@.owned
                &&& !final(shared)@.closed
            }) ==> final(self).wf(),
    {
        &mut self.shared
    }

    /// The number of pages on the owner's free list. Pages on the return queue do
    /// not count.
    pub fn local_free_pages(&self) -> (n: usize)
        requires
            self.wf(),
        ensures
            n == self@.owned.len(),
    {
        self.local.len()
    }

    /// Commits `num_pages` new pages into the owner's free list, each of them
    /// prefaulted, so that the next `num_pages` allocations do not need the source.
    pub fn prewarm(&mut self, num_pages: usize)
        requires
            old(self).wf(),
        ensures
            final(self).wf(),
            prewarmed(old(self)@, final(self)@, num_pages as nat),
    {
        let ghost before = old(self)@;
        let ghost mut new: Seq<Site> = Seq::empty();
        proof {
            assert(before.sites + new =~= before.sites);
            assert(before.frames + Seq::new(0, |i: int| Frame::Free) =~= before.frames);
            assert(before.owned + Seq::new(0, |i: int| (before.frames.len() + i) as nat)
                =~= before.owned);
        }
        let mut done: usize = 0;
        while done < num_pages
            invariant
                done <= num_pages,
                self.inv(),
                !before.closed,
                new.len() == done,
                committed(before, new),
                self@ == (PoolView {
                    counters: before.counters,
                    ..after_prewarm(before, new)
                }),
            decreases num_pages - done,
        {
            let mut buf = self.shared.source.allocate();
            self.shared.source.prefault(&mut buf);
            let ghost serial = self.shared.frames@.len();
            let ghost s = site(buf);
            self.local.push(RawPage { buf, serial: Ghost(serial) });
            self.shared.sites = Ghost(self.shared.sites@.push(s));
            self.shared.frames = Ghost(self.shared.frames@.push(Frame::Free));
            self.shared.owned = Ghost(self.shared.owned@.push(serial));
            proof {
                lemma_prewarm_step(before, new, s);
                new = new.push(s);
                assert(serials(self.local@) =~= self.shared.owned@);
            }
            done = done + 1;
        }
        let n: u64 = num_pages as u64;
        count_up(&mut self.shared.stats.allocations_from_heap, n);
        count_up(&mut self.shared.stats.free_pages, n);
        count_up(&mut self.shared.stats.prewarmed_pages, n);
        proof {
            lemma_prewarm_ok(before, new);
            assert(new_sites(before, self@) =~= new);
        }
    }

    /// Takes a page from the owner's free list.
    fn pop_local(&mut self) -> (page: Option<RawPage<S::Buf>>)
        requires
            old(self).inv(),
            !old(self)@.closed,
        ensures
            final(self).inv(),
            old(self)@.owned.len() == 0 ==> page is None && final(self)@ == old(self)@,
            old(self)@.owned.len() > 0 ==> {
                &&& page is Some
                &&& page->0.serial@ == old(self)@.owned.last()
                &&& page_at(page->0, old(self)@.page_size, old(self)@.sites)
                &&& final(self)@ == (PoolView {
                    counters: PoolCounters {
                        free_pages: wrap64(old(self)@.counters.free_pages - 1),
                        ..old(self)@.counters
                    },
                    owned: old(self)@.owned.drop_last(),
                    ..old(self)@
                })
            },
    {
        match self.local.pop() {
            None => None,
            Some(page) => {
                self.shared.owned = Ghost(self.shared.owned@.drop_last());
                count_down(&mut self.shared.stats.free_pages, 1);
                proof {
                    let list = old(self).local@;
                    assert(list[list.len() - 1] == page);
                    assert(serials(self.local@) =~= self.shared.owned@);
                }
                Some(page)
            },
        }
    }

    /// Takes over the return queue as the owner's free list, which is empty, and
    /// takes a page from it.
    fn drain_return_queue(&mut self) -> (page: Option<RawPage<S::Buf>>)
        requires
            old(self).inv(),
            !old(self)@.closed,
            old(self)@.owned.len() == 0,
        ensures
            final(self).inv(),
            old(self)@.returned.len() == 0 ==> page is None && final(self)@ == old(self)@,
            old(self)@.returned.len() > 0 ==> {
                &&& page is Some
                &&& page->0.serial@ == old(self)@.returned.last()
                &&& page_at(page->0, old(self)@.page_size, old(self)@.sites)
                &&& final(self)@ == (PoolView {
                    counters: PoolCounters {
                        return_queue_drains: wrap64(old(self)@.counters.return_queue_drains + 1),
                        free_pages: wrap64(old(self)@.counters.free_pages - 1),
                        ..old(self)@.counters
                    },
                    owned: old(self)@.returned.drop_last(),
                    returned: Seq::empty(),
                    ..old(self)@
                })
            },
    {
        if self.shared.returned.len() == 0 {
            return None;
        }
        count_up(&mut self.shared.stats.return_queue_drains, 1);
        let mut queue: Vec<RawPage<S::Buf>> = Vec::new();
        std::mem::swap(&mut queue, &mut self.shared.returned);
        self.shared.owned = Ghost(serials(queue@));
        self.local = queue;
        assert(self@.returned =~= Seq::empty());
        self.pop_local()
    }

    /// Obtains a page from the source.
    fn allocate_fresh(&mut self) -> (page: RawPage<S::Buf>)
        requires
            old(self).inv(),
        ensures
            final(self).inv(),
            page.serial@ == old(self)@.frames.len(),
            page.buf.bytes() == zeros(old(self)@.page_size),
            page.buf.address() % old(self)@.page_align == 0,
            page.buf.measured(),
            page.buf.prefaults() == 0,
            final(self)@ == (PoolView {
                counters: PoolCounters {
                    allocations_from_heap: wrap64(old(self)@.counters.allocations_from_heap + 1),
                    ..old(self)@.counters
                },
                sites: old(self)@.sites.push(site(page.buf)),
                frames: old(self)@.frames.push(Frame::Free),
                log: SourceLog { allocated: old(self)@.log.allocated + 1, ..old(self)@.log },
                ..old(self)@
            }),
    {
        count_up(&mut self.shared.stats.allocations_from_heap, 1);
        let ghost serial = self.shared.frames@.len();
        self.shared.frames = Ghost(self.shared.frames@.push(Frame::Free));
        let buf = self.shared.source.allocate();
        self.shared.sites = Ghost(self.shared.sites@.push(site(buf)));
        RawPage { buf, serial: Ghost(serial) }
    }

    /// Takes one page out of the pool, without charging anyone for it. A page
    /// that comes from the source is zero.
    pub(crate) fn allocate_raw_page(&mut self) -> (page: RawPage<S::Buf>)
        requires
            old(self).wf(),
        ensures
            final(self).wf(),
            final(self)@ == after_take(old(self)@, site(page.buf)),
            page.serial@ == next_taken(old(self)@),
            page.buf.bytes().len() == old(self)@.page_size,
            site_for(old(self)@, site(page.buf)),
            takes_fresh(old(self)@) ==> page.buf.bytes() == zeros(old(self)@.page_size),
    {
        let page = match self.pop_local() {
            Some(page) => page,
            None => match self.drain_return_queue() {
                Some(page) => page,
                None => self.allocate_fresh(),
            },
        };
        count_up(&mut self.shared.stats.pages_in_use, 1);
        self.shared.frames = Ghost(
            self.shared.frames@.update(page.serial@ as int, Frame::Held),
        );
        proof {
            let s = site(page.buf);
            lemma_take_ok(old(self)@, s);
            assert(self@.frames =~= after_take(old(self)@, s).frames);
            assert(self@ == after_take(old(self)@, s));
        }
        page
    }

    /// Allocates a page for `tenant`, and charges the tenant for it.
    pub fn allocate(&mut self, ledger: &mut Ledger, tenant: &Tenant) -> (b: PageBuilder<S::Buf>)
        requires
            old(self).wf(),
            old(ledger).wf(),
            old(ledger).knows(tenant),
            old(ledger).has_room(tenant, old(self)@.page_size),
        ensures
            final(self).wf(),
            final(ledger).wf(),
            final(self)@ == after_take(old(self)@, b@.site),
            final(ledger)@ == ledger_after_allocate(
                old(ledger)@,
                tenant.account(),
                Grain::Page,
                old(self)@.page_size,
            ),
            b.wf(),
            fresh_builder(b@, old(self)@, old(ledger)@, tenant.account()),
            b@.held_in(final(self)@),
    {
        let page = self.allocate_raw_page();
        proof {
            lemma_take_ok(old(self)@, site(page.buf));
        }
        let page_size: usize = self.shared.page_size;
        let account: usize = tenant.account_number();
        let charge = ledger.charge_page(account, page_size as u64);
        PageBuilder::new(page, page_size, account, charge)
    }

    /// Allocates a page, copies `data` into it, and seals it.
    pub fn alloc_from(&mut self, ledger: &mut Ledger, tenant: &Tenant, data: &[u8]) -> (page: Page)
        requires
            old(self).wf(),
            old(ledger).wf(),
            old(ledger).knows(tenant),
            old(ledger).has_room(tenant, old(self)@.page_size),
            data@.len() <= old(self)@.page_size,
        ensures
            final(self).wf(),
            final(ledger).wf(),
            sealed_from(
                old(self)@,
                final(self)@,
                old(ledger)@,
                tenant.account(),
                page.key(),
                data@,
            ),
            final(ledger)@ == ledger_after_allocate(
                old(ledger)@,
                tenant.account(),
                Grain::Page,
                old(self)@.page_size,
            ),
            page.in_pool(final(self)@),
    {
        let mut b = self.allocate(ledger, tenant);
        if data.len() > 0 {
            write_at(b.as_mut_slice(), 0, data);
            b.set_len(data.len());
        }
        assert(b@.content() =~= data@);
        b.seal(self.shared_mut())
    }

    /// Allocates a page, runs `init` on the whole of it, and seals it with the
    /// whole page as its content.
    ///
    /// If `init` panics, the page stays out of the pool and stays charged: its
    /// builder is lost, and a builder is given up only by `release`.
    pub fn alloc_with<F: FnOnce(&mut [u8])>(
        &mut self,
        ledger: &mut Ledger,
        tenant: &Tenant,
        init: F,
    ) -> (page: Page)
        requires
            old(self).wf(),
            old(ledger).wf(),
            old(ledger).knows(tenant),
            old(ledger).has_room(tenant, old(self)@.page_size),
            forall|s: &mut [u8]|
                s@.len() == old(self)@.page_size ==> call_requires(init, (s,)),
        ensures
            final(self).wf(),
            final(ledger).wf(),
            exists|s: &mut [u8]|
                {
                    &&& #[trigger] call_ensures(init, (s,), ())
                    &&& s@.len() == old(self)@.page_size == final(s)@.len()
                    &&& takes_fresh(old(self)@) ==> s@ == zeros(old(self)@.page_size)
                    &&& sealed_from(
                        old(self)@,
                        final(self)@,
                        old(ledger)@,
                        tenant.account(),
                        page.key(),
                        final(s)@,
                    )
                },
            final(ledger)@ == ledger_after_allocate(
                old(ledger)@,
                tenant.account(),
                Grain::Page,
                old(self)@.page_size,
            ),
            page.in_pool(final(self)@),
    {
        let mut b = self.allocate(ledger, tenant);
        init(b.as_mut_slice());
        let cap: usize = b.capacity();
        b.set_len(cap);
        assert(b@.content() =~= b@.bytes);
        b.seal(self.shared_mut())
    }

    /// Allocates a page, runs `init` on the whole of it, and seals it with the
    /// content length that `init` returns.
    ///
    /// If `init` panics, the page stays out of the pool and stays charged: its
    /// builder is lost, and a builder is given up only by `release`.
    pub fn alloc_with_len<F: FnOnce(&mut [u8]) -> usize>(
        &mut self,
        ledger: &mut Ledger,
        tenant: &Tenant,
        init: F,
    ) -> (page: Page)
        requires
            old(self).wf(),
            old(ledger).wf(),
            old(ledger).knows(tenant),
            old(ledger).has_room(tenant, old(self)@.page_size),
            forall|s: &mut [u8]|
                s@.len() == old(self)@.page_size ==> call_requires(init, (s,)),
            forall|s: &mut [u8], n: usize|
                s@.len() == old(self)@.page_size && #[trigger] call_ensures(init, (s,), n) ==> n
                    <= old(self)@.page_size,
        ensures
            final(self).wf(),
            final(ledger).wf(),
            exists|s: &mut [u8], n: usize|
                {
                    &&& #[trigger] call_ensures(init, (s,), n)
                    &&& n <= s@.len() == old(self)@.page_size == final(s)@.len()
                    &&& takes_fresh(old(self)@) ==> s@ == zeros(old(self)@.page_size)
                    &&& sealed_from(
                        old(self)@,
                        final(self)@,
                        old(ledger)@,
                        tenant.account(),
                        page.key(),
                        final(s)@.subrange(0, n as int),
                    )
                },
            final(ledger)@ == ledger_after_allocate(
                old(ledger)@,
                tenant.account(),
                Grain::Page,
                old(self)@.page_size,
            ),
            page.in_pool(final(self)@),
    {
        let mut b = self.allocate(ledger, tenant);
        let len: usize = init(b.as_mut_slice());
        b.set_len(len);
        b.seal(self.shared_mut())
    }

    /// Gives the pages on the owner's free list back to the source.
    pub(crate) fn shut(&mut self)
        requires
            old(self).wf(),
        ensures
            final(self).inv(),
            pool_ok(final(self)@),
            final(self)@ == after_close(old(self)@),
    {
        let ghost before = self@;
        while self.local.len() > 0
            invariant
                pages_at(self.local@, self.shared.page_size as nat, self.shared.sites@),
                self.local@.len() <= before.owned.len(),
                self.shared.inv(),
                self.shared@ == (PoolView {
                    log: SourceLog {
                        released: (before.log.released + before.owned.len()
                            - self.local@.len()) as nat,
                        ..before.log
                    },
                    ..before
                }),
            decreases self.local@.len(),
        {
            let page = self.local.pop().unwrap();
            self.shared.source.release(page.buf);
        }
        self.shared.closed = Ghost(true);
        assert(serials(self.local@) =~= Seq::empty());
    }

    /// Ends the owner's part of the pool: the pages on the owner's free list go
    /// back to the source. The shared part remains for the pages that are out.
    pub fn close(self) -> (shared: PoolShared<S>)
        requires
            self.wf(),
        ensures
            shared.wf(),
            shared@ == after_close(self@),
    {
        let mut pool = self;
        pool.shut();
        pool.shared
    }
}

} // verus!
