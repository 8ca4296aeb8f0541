//! Tenants, and the ledger that accounts for what they hold.
use vstd::prelude::*;

use crate::counter::{count_down, count_up, wrap64};
use crate::tally::tally;
#[allow(unused_imports)]
use crate::counter::lemma_wrap64_step;
#[allow(unused_imports)]
use crate::tally::{lemma_tally_member, lemma_tally_push, lemma_tally_update};

verus! {

// ---------------------------------------------------------------------------
// Tenant identifiers
// ---------------------------------------------------------------------------
/// Opaque tenant identifier. Its view is its text.
#[derive(Debug, Hash)]
pub struct TenantId(String);

impl View for TenantId {
    type V = Seq<char>;

    closed spec fn view(&self) -> Seq<char> {
        self.0@
    }
}

impl TenantId {
    /// The identifier's text.
    pub fn as_str(&self) -> (s: &str)
        ensures
            s@ == self@,
    {
        self.0.as_str()
    }
}

impl Clone for TenantId {
    fn clone(&self) -> (r: Self)
        ensures
            r@ == self@,
    {
        TenantId(self.0.clone())
    }
}

impl PartialEq for TenantId {
    fn eq(&self, other: &Self) -> (r: bool)
        ensures
            r == (self@ == other@),
    {
        self.0 == other.0
    }
}

impl vstd::std_specs::cmp::PartialEqSpecImpl for TenantId {
    open spec fn obeys_eq_spec() -> bool {
        true
    }

    open spec fn eq_spec(&self, other: &Self) -> bool {
        self@ == other@
    }
}

impl Eq for TenantId {

}

impl From<&str> for TenantId {
    fn from(s: &str) -> (r: Self)
        ensures
            r@ == s@,
    {
        TenantId(s.to_owned())
    }
}

impl vstd::std_specs::convert::FromSpecImpl<&str> for TenantId {
    open spec fn obeys_from_spec() -> bool {
        false
    }

    open spec fn from_spec(v: &str) -> Self {
        arbitrary()
    }
}

impl From<String> for TenantId {
    fn from(s: String) -> (r: Self)
        ensures
            r@ == s@,
    {
        TenantId(s)
    }
}

impl vstd::std_specs::convert::FromSpecImpl<String> for TenantId {
    open spec fn obeys_from_spec() -> bool {
        false
    }

    open spec fn from_spec(v: String) -> Self {
        arbitrary()
    }
}

// ---------------------------------------------------------------------------
// Counters of one tenant
// ---------------------------------------------------------------------------
/// The unit in which an allocation is counted.
pub enum Grain {
    Page,
    Chunk,
}

/// The readings of a tenant's counters.
pub struct TenantCounters {
    pub bytes_in_use: u64,
    pub peak_bytes_in_use: u64,
    pub pages_in_use: u64,
    pub total_pages_allocated: u64,
    pub chunks_in_use: u64,
    pub total_chunks_allocated: u64,
}

/// The counters of a tenant that has allocated nothing.
pub open spec fn no_usage() -> TenantCounters {
    TenantCounters {
        bytes_in_use: 0,
        peak_bytes_in_use: 0,
        pages_in_use: 0,
        total_pages_allocated: 0,
        chunks_in_use: 0,
        total_chunks_allocated: 0,
    }
}

/// The counters after an allocation of `bytes` bytes: one more in use and one
/// more in total in its own unit, the bytes added, and the peak raised where the
/// sum passes it.
pub open spec fn usage_after_allocate(
    c: TenantCounters,
    grain: Grain,
    bytes: nat,
) -> TenantCounters {
    let now = (c.bytes_in_use + bytes) as u64;
    let peak = if now > c.peak_bytes_in_use {
        now
    } else {
        c.peak_bytes_in_use
    };
    match grain {
        Grain::Page => TenantCounters {
            bytes_in_use: now,
            peak_bytes_in_use: peak,
            pages_in_use: wrap64(c.pages_in_use + 1),
            total_pages_allocated: wrap64(c.total_pages_allocated + 1),
            ..c
        },
        Grain::Chunk => TenantCounters {
            bytes_in_use: now,
            peak_bytes_in_use: peak,
            chunks_in_use: wrap64(c.chunks_in_use + 1),
            total_chunks_allocated: wrap64(c.total_chunks_allocated + 1),
            ..c
        },
    }
}

/// The counters after a release of `bytes` bytes: one less in use in its own
/// unit, the bytes taken off. Totals and peak stay.
pub open spec fn usage_after_release(
    c: TenantCounters,
    grain: Grain,
    bytes: nat,
) -> TenantCounters {
    let now = wrap64(c.bytes_in_use - bytes);
    match grain {
        Grain::Page => TenantCounters {
            bytes_in_use: now,
            pages_in_use: wrap64(c.pages_in_use - 1),
            ..c
        },
        Grain::Chunk => TenantCounters {
            bytes_in_use: now,
            chunks_in_use: wrap64(c.chunks_in_use - 1),
            ..c
        },
    }
}

/// Counters describing a tenant's current and historical usage.
#[derive(Clone, Copy, Debug)]
pub struct TenantStats {
    bytes_in_use: u64,
    pages_in_use: u64,
    total_pages_allocated: u64,
    peak_bytes_in_use: u64,
    chunks_in_use: u64,
    total_chunks_allocated: u64,
}

impl View for TenantStats {
    type V = TenantCounters;

    closed spec fn view(&self) -> TenantCounters {
        TenantCounters {
            bytes_in_use: self.bytes_in_use,
            peak_bytes_in_use: self.peak_bytes_in_use,
            pages_in_use: self.pages_in_use,
            total_pages_allocated: self.total_pages_allocated,
            chunks_in_use: self.chunks_in_use,
            total_chunks_allocated: self.total_chunks_allocated,
        }
    }
}

impl Default for TenantStats {
    /// Counters at zero.
    fn default() -> (stats: Self)
        ensures
            stats@ == no_usage(),
    {
        TenantStats {
            bytes_in_use: 0,
            pages_in_use: 0,
            total_pages_allocated: 0,
            peak_bytes_in_use: 0,
            chunks_in_use: 0,
            total_chunks_allocated: 0,
        }
    }
}

impl TenantStats {
    /// Bytes held now, in pages and chunks together.
    pub fn bytes_in_use(&self) -> (n: u64)
        ensures
            n == self@.bytes_in_use,
    {
        self.bytes_in_use
    }

    /// Pages held now.
    pub fn pages_in_use(&self) -> (n: u64)
        ensures
            n == self@.pages_in_use,
    {
        self.pages_in_use
    }

    /// Pages allocated so far.
    pub fn total_pages_allocated(&self) -> (n: u64)
        ensures
            n == self@.total_pages_allocated,
    {
        self.total_pages_allocated
    }

    /// The most bytes that were ever held at one time.
    pub fn peak_bytes_in_use(&self) -> (n: u64)
        ensures
            n == self@.peak_bytes_in_use,
    {
        self.peak_bytes_in_use
    }

    /// Chunks held now.
    pub fn chunks_in_use(&self) -> (n: u64)
        ensures
            n == self@.chunks_in_use,
    {
        self.chunks_in_use
    }

    /// Chunks allocated so far.
    pub fn total_chunks_allocated(&self) -> (n: u64)
        ensures
            n == self@.total_chunks_allocated,
    {
        self.total_chunks_allocated
    }

    /// Adds `bytes` to what is held, and raises the peak where the sum passes it.
    fn add_bytes(&mut self, bytes: u64)
        requires
            old(self)@.bytes_in_use + bytes <= u64::MAX,
        ensures
            ({
                let now = (old(self)@.bytes_in_use + bytes) as u64;
                final(self)@ == (TenantCounters {
                    bytes_in_use: now,
                    peak_bytes_in_use: if now > old(self)@.peak_bytes_in_use {
                        now
                    } else {
                        old(self)@.peak_bytes_in_use
                    },
                    ..old(self)@
                })
            }),
    {
        self.bytes_in_use = self.bytes_in_use + bytes;
        if self.bytes_in_use > self.peak_bytes_in_use {
            self.peak_bytes_in_use = self.bytes_in_use;
        }
    }

    /// Counts a page of `page_bytes` bytes as allocated.
    pub fn record_allocate(&mut self, page_bytes: u64)
        requires
            old(self)@.bytes_in_use + page_bytes <= u64::MAX,
        ensures
            final(self)@ == usage_after_allocate(old(self)@, Grain::Page, page_bytes as nat),
    {
        count_up(&mut self.total_pages_allocated, 1);
        count_up(&mut self.pages_in_use, 1);
        self.add_bytes(page_bytes);
    }

    /// Counts a page of `page_bytes` bytes as released.
    pub fn record_release(&mut self, page_bytes: u64)
        ensures
            final(self)@ == usage_after_release(old(self)@, Grain::Page, page_bytes as nat),
    {
        count_down(&mut self.bytes_in_use, page_bytes);
        count_down(&mut self.pages_in_use, 1);
    }

    /// Counts a chunk of `bytes` bytes as allocated.
    pub fn record_chunk_allocate(&mut self, bytes: u64)
        requires
            old(self)@.bytes_in_use + bytes <= u64::MAX,
        ensures
            final(self)@ == usage_after_allocate(old(self)@, Grain::Chunk, bytes as nat),
    {
        count_up(&mut self.total_chunks_allocated, 1);
        count_up(&mut self.chunks_in_use, 1);
        self.add_bytes(bytes);
    }

    /// Counts a chunk of `bytes` bytes as released.
    pub fn record_chunk_release(&mut self, bytes: u64)
        ensures
            final(self)@ == usage_after_release(old(self)@, Grain::Chunk, bytes as nat),
    {
        count_down(&mut self.bytes_in_use, bytes);
        count_down(&mut self.chunks_in_use, 1);
    }
}

// ---------------------------------------------------------------------------
// The ledger
// ---------------------------------------------------------------------------
/// One allocation that a tenant was charged for. It is `open` until released.
pub struct Charge {
    pub account: nat,
    pub grain: Grain,
    pub bytes: nat,
    pub open: bool,
}

/// What an allocation contributes to the bytes that account `a` holds.
pub open spec fn open_bytes(a: nat) -> spec_fn(Charge) -> nat {
    |c: Charge|
        if c.account == a && c.open {
            c.bytes
        } else {
            0
        }
}

/// One for each unreleased allocation of account `a` in unit `grain`.
pub open spec fn open_count(a: nat, grain: Grain) -> spec_fn(Charge) -> nat {
    |c: Charge|
        if c.account == a && c.grain == grain && c.open {
            1
        } else {
            0
        }
}

/// One for each allocation that account `a` ever made in unit `grain`.
pub open spec fn ever_count(a: nat, grain: Grain) -> spec_fn(Charge) -> nat {
    |c: Charge|
        if c.account == a && c.grain == grain {
            1
        } else {
            0
        }
}

/// A ledger as a value: the counters of each account, every charge made, and for
/// each account the bytes that it held after each step, from its opening on.
pub struct LedgerView {
    pub accounts: Seq<TenantCounters>,
    pub charges: Seq<Charge>,
    pub history: Seq<Seq<u64>>,
}

/// The histories after account `a` holds `now` bytes.
pub open spec fn noted(history: Seq<Seq<u64>>, a: int, now: u64) -> Seq<Seq<u64>> {
    history.update(a, history[a].push(now))
}

/// `m` is the largest number in `h`.
pub open spec fn largest(h: Seq<u64>, m: u64) -> bool {
    &&& forall|i: int| 0 <= i < h.len() ==> (#[trigger] h[i]) <= m
    &&& exists|i: int| 0 <= i < h.len() && #[trigger] h[i] == m
}

/// The counters of account `a` agree with the charges and with its history: what is
/// in use is what the unreleased charges add up to, the totals count all charges,
/// and the peak is the most that was ever held.
pub open spec fn balanced(v: LedgerView, a: nat) -> bool {
    let c = v.accounts[a as int];
    let h = v.history[a as int];
    &&& h.len() > 0
    &&& h.first() == 0
    &&& h.last() == c.bytes_in_use
    &&& largest(h, c.peak_bytes_in_use)
    &&& c.bytes_in_use == tally(v.charges, open_bytes(a))
    &&& c.bytes_in_use <= c.peak_bytes_in_use
    &&& c.pages_in_use == wrap64(tally(v.charges, open_count(a, Grain::Page)) as int)
    &&& c.chunks_in_use == wrap64(tally(v.charges, open_count(a, Grain::Chunk)) as int)
    &&& c.total_pages_allocated == wrap64(tally(v.charges, ever_count(a, Grain::Page)) as int)
    &&& c.total_chunks_allocated == wrap64(tally(v.charges, ever_count(a, Grain::Chunk)) as int)
}

/// A step that is no larger leaves the largest number; a larger one becomes it.
proof fn lemma_largest_push(h: Seq<u64>, n: u64)
    ensures
        forall|m: u64| #[trigger] largest(h, m) && n <= m ==> largest(h.push(n), m),
        forall|m: u64| #[trigger] largest(h, m) && n > m ==> largest(h.push(n), n),
{
    assert(h.push(n)[h.len() as int] == n);
    assert forall|m: u64| #[trigger] largest(h, m) && n <= m implies largest(h.push(n), m) by {
        let i = choose|i: int| 0 <= i < h.len() && #[trigger] h[i] == m;
        assert(h.push(n)[i] == m);
    }
}

/// The ledger after account `a` is charged for an allocation.
pub open spec fn ledger_after_allocate(
    v: LedgerView,
    a: nat,
    grain: Grain,
    bytes: nat,
) -> LedgerView {
    LedgerView {
        accounts: v.accounts.update(
            a as int,
            usage_after_allocate(v.accounts[a as int], grain, bytes),
        ),
        charges: v.charges.push(Charge { account: a, grain, bytes, open: true }),
        history: noted(
            v.history,
            a as int,
            usage_after_allocate(v.accounts[a as int], grain, bytes).bytes_in_use,
        ),
    }
}

/// The ledger after charge `id` is released.
pub open spec fn ledger_after_release(v: LedgerView, id: nat) -> LedgerView {
    let c = v.charges[id as int];
    LedgerView {
        accounts: v.accounts.update(
            c.account as int,
            usage_after_release(v.accounts[c.account as int], c.grain, c.bytes),
        ),
        charges: v.charges.update(id as int, Charge { open: false, ..c }),
        history: noted(
            v.history,
            c.account as int,
            usage_after_release(v.accounts[c.account as int], c.grain, c.bytes).bytes_in_use,
        ),
    }
}

/// Charge `id` stands open in the ledger for the given allocation.
pub open spec fn charged(v: LedgerView, id: nat, a: nat, grain: Grain, bytes: nat) -> bool {
    &&& id < v.charges.len()
    &&& a < v.accounts.len()
    &&& v.charges[id as int] == Charge { account: a, grain, bytes, open: true }
}

/// The accounts of all tenants of a worker.
///
/// A [`Tenant`] names an account in it. Pools charge the account when they
/// allocate and settle the charge when the allocation is released, so an account
/// is the same one whichever pool a tenant allocates from.
pub struct Ledger {
    accounts: Vec<TenantStats>,
    charges: Ghost<Seq<Charge>>,
    history: Ghost<Seq<Seq<u64>>>,
}

impl View for Ledger {
    type V = LedgerView;

    closed spec fn view(&self) -> LedgerView {
        LedgerView {
            accounts: Seq::new(self.accounts@.len(), |a: int| self.accounts@[a]@),
            charges: self.charges@,
            history: self.history@,
        }
    }
}

impl Ledger {
    /// Every account is balanced, and every charge belongs to an account.
    pub open spec fn wf(&self) -> bool {
        &&& self@.history.len() == self@.accounts.len()
        &&& forall|a: nat| a < self@.accounts.len() ==> #[trigger] balanced(self@, a)
        &&& forall|id: int|
            0 <= id < self@.charges.len() ==> (#[trigger] self@.charges[id]).account
                < self@.accounts.len()
    }

    /// Whether `tenant` has its account here.
    pub open spec fn knows(&self, tenant: &Tenant) -> bool {
        tenant.account() < self@.accounts.len()
    }

    /// Whether `tenant` can be charged `bytes` more bytes: the sum has to fit its
    /// counter.
    pub open spec fn has_room(&self, tenant: &Tenant, bytes: nat) -> bool {
        self@.accounts[tenant.account() as int].bytes_in_use + bytes <= u64::MAX
    }

    /// A ledger without accounts.
    pub fn new() -> (ledger: Self)
        ensures
            ledger.wf(),
            ledger@.accounts.len() == 0,
            ledger@.charges.len() == 0,
    {
        Ledger {
            accounts: Vec::new(),
            charges: Ghost(Seq::empty()),
            history: Ghost(Seq::empty()),
        }
    }

    /// Opens an account with its counters at zero.
    fn open_account(&mut self) -> (account: usize)
        requires
            old(self).wf(),
        ensures
            final(self).wf(),
            account == old(self)@.accounts.len(),
            final(self)@ == (LedgerView {
                accounts: old(self)@.accounts.push(no_usage()),
                history: old(self)@.history.push(seq![0u64]),
                ..old(self)@
            }),
    {
        let account: usize = self.accounts.len();
        self.accounts.push(TenantStats::default());
        self.history = Ghost(self.history@.push(seq![0u64]));
        proof {
            assert(self@.accounts =~= old(self)@.accounts.push(no_usage()));
            assert forall|a: nat| a < self@.accounts.len() implies #[trigger] balanced(
                self@,
                a,
            ) by {
                if a < account {
                    assert(balanced(old(self)@, a));
                } else {
                    assert(self@.history[a as int][0] == 0);
                    let charges = self@.charges;
                    assert forall|id: int| 0 <= id < charges.len() implies (
                    #[trigger] charges[id]).account != a by {
                        assert(old(self)@.charges[id].account < account);
                    }
                    crate::tally::lemma_tally_zero(charges, open_bytes(a));
                    crate::tally::lemma_tally_zero(charges, open_count(a, Grain::Page));
                    crate::tally::lemma_tally_zero(charges, open_count(a, Grain::Chunk));
                    crate::tally::lemma_tally_zero(charges, ever_count(a, Grain::Page));
                    crate::tally::lemma_tally_zero(charges, ever_count(a, Grain::Chunk));
                }
            }
        }
        account
    }

    /// Charging an account keeps the ledger balanced.
    proof fn lemma_allocate_balanced(v: LedgerView, a: nat, grain: Grain, bytes: nat)
        requires
            v.history.len() == v.accounts.len(),
            forall|b: nat| b < v.accounts.len() ==> #[trigger] balanced(v, b),
            a < v.accounts.len(),
            v.accounts[a as int].bytes_in_use + bytes <= u64::MAX,
        ensures
            forall|b: nat|
                b < v.accounts.len() ==> #[trigger] balanced(
                    ledger_after_allocate(v, a, grain, bytes),
                    b,
                ),
    {
        let w = ledger_after_allocate(v, a, grain, bytes);
        let c = Charge { account: a, grain, bytes, open: true };
        assert forall|b: nat| b < v.accounts.len() implies #[trigger] balanced(w, b) by {
            assert(balanced(v, b));
            lemma_largest_push(v.history[b as int], w.history[b as int].last());
            lemma_tally_push(v.charges, c, open_bytes(b));
            lemma_tally_push(v.charges, c, open_count(b, Grain::Page));
            lemma_tally_push(v.charges, c, open_count(b, Grain::Chunk));
            lemma_tally_push(v.charges, c, ever_count(b, Grain::Page));
            lemma_tally_push(v.charges, c, ever_count(b, Grain::Chunk));
            lemma_wrap64_step(tally(v.charges, open_count(b, Grain::Page)) as int, 1);
            lemma_wrap64_step(tally(v.charges, open_count(b, Grain::Chunk)) as int, 1);
            lemma_wrap64_step(tally(v.charges, ever_count(b, Grain::Page)) as int, 1);
            lemma_wrap64_step(tally(v.charges, ever_count(b, Grain::Chunk)) as int, 1);
        }
    }

    /// Settling an open charge keeps the ledger balanced.
    proof fn lemma_release_balanced(v: LedgerView, id: nat)
        requires
            v.history.len() == v.accounts.len(),
            forall|b: nat| b < v.accounts.len() ==> #[trigger] balanced(v, b),
            id < v.charges.len(),
            v.charges[id as int].open,
            v.charges[id as int].account < v.accounts.len(),
        ensures
            forall|b: nat|
                b < v.accounts.len() ==> #[trigger] balanced(ledger_after_release(v, id), b),
    {
        let w = ledger_after_release(v, id);
        let k = id as int;
        let c = v.charges[k];
        let d = Charge { open: false, ..c };
        assert forall|b: nat| b < v.accounts.len() implies #[trigger] balanced(w, b) by {
            assert(balanced(v, b));
            lemma_largest_push(v.history[b as int], w.history[b as int].last());
            lemma_tally_member(v.charges, k, open_bytes(b));
            lemma_tally_update(v.charges, k, d, open_bytes(b));
            lemma_tally_update(v.charges, k, d, open_count(b, Grain::Page));
            lemma_tally_update(v.charges, k, d, open_count(b, Grain::Chunk));
            lemma_tally_update(v.charges, k, d, ever_count(b, Grain::Page));
            lemma_tally_update(v.charges, k, d, ever_count(b, Grain::Chunk));
            lemma_wrap64_step(tally(v.charges, open_count(b, Grain::Page)) as int, -1);
            lemma_wrap64_step(tally(v.charges, open_count(b, Grain::Chunk)) as int, -1);
        }
    }

    /// Charges `account` for a page.
    pub(crate) fn charge_page(&mut self, account: usize, bytes: u64) -> (id: Ghost<nat>)
        requires
            old(self).wf(),
            account < old(self)@.accounts.len(),
            old(self)@.accounts[account as int].bytes_in_use + bytes <= u64::MAX,
        ensures
            final(self).wf(),
            id@ == old(self)@.charges.len(),
            final(self)@ == ledger_after_allocate(
                old(self)@,
                account as nat,
                Grain::Page,
                bytes as nat,
            ),
    {
        let ghost charge = Charge {
            account: account as nat,
            grain: Grain::Page,
            bytes: bytes as nat,
            open: true,
        };
        self.accounts[account].record_allocate(bytes);
        self.charges = Ghost(self.charges@.push(charge));
        self.history = Ghost(
            noted(self.history@, account as int, self.accounts@[account as int]@.bytes_in_use),
        );
        proof {
            let w = ledger_after_allocate(old(self)@, account as nat, Grain::Page, bytes as nat);
            assert(self@.accounts =~= w.accounts);
            Self::lemma_allocate_balanced(old(self)@, account as nat, Grain::Page, bytes as nat);
        }
        Ghost(old(self)@.charges.len())
    }

    /// Charges `account` for a chunk.
    pub(crate) fn charge_chunk(&mut self, account: usize, bytes: u64) -> (id: Ghost<nat>)
        requires
            old(self).wf(),
            account < old(self)@.accounts.len(),
            old(self)@.accounts[account as int].bytes_in_use + bytes <= u64::MAX,
        ensures
            final(self).wf(),
            id@ == old(self)@.charges.len(),
            final(self)@ == ledger_after_allocate(
                old(self)@,
                account as nat,
                Grain::Chunk,
                bytes as nat,
            ),
    {
        let ghost charge = Charge {
            account: account as nat,
            grain: Grain::Chunk,
            bytes: bytes as nat,
            open: true,
        };
        self.accounts[account].record_chunk_allocate(bytes);
        self.charges = Ghost(self.charges@.push(charge));
        self.history = Ghost(
            noted(self.history@, account as int, self.accounts@[account as int]@.bytes_in_use),
        );
        proof {
            let w = ledger_after_allocate(old(self)@, account as nat, Grain::Chunk, bytes as nat);
            assert(self@.accounts =~= w.accounts);
            Self::lemma_allocate_balanced(old(self)@, account as nat, Grain::Chunk, bytes as nat);
        }
        Ghost(old(self)@.charges.len())
    }

    /// Settles the charge for a page.
    pub(crate) fn settle_page(&mut self, account: usize, bytes: u64, id: Ghost<nat>)
        requires
            old(self).wf(),
            charged(old(self)@, id@, account as nat, Grain::Page, bytes as nat),
        ensures
            final(self).wf(),
            final(self)@ == ledger_after_release(old(self)@, id@),
    {
        self.accounts[account].record_release(bytes);
        self.charges = Ghost(
            self.charges@.update(id@ as int, Charge { open: false, ..self.charges@[id@ as int] }),
        );
        self.history = Ghost(
            noted(self.history@, account as int, self.accounts@[account as int]@.bytes_in_use),
        );
        proof {
            assert(self@.accounts =~= ledger_after_release(old(self)@, id@).accounts);
            Self::lemma_release_balanced(old(self)@, id@);
        }
    }

    /// Settles the charge for a chunk.
    pub(crate) fn settle_chunk(&mut self, account: usize, bytes: u64, id: Ghost<nat>)
        requires
            old(self).wf(),
            charged(old(self)@, id@, account as nat, Grain::Chunk, bytes as nat),
        ensures
            final(self).wf(),
            final(self)@ == ledger_after_release(old(self)@, id@),
    {
        self.accounts[account].record_chunk_release(bytes);
        self.charges = Ghost(
            self.charges@.update(id@ as int, Charge { open: false, ..self.charges@[id@ as int] }),
        );
        self.history = Ghost(
            noted(self.history@, account as int, self.accounts@[account as int]@.bytes_in_use),
        );
        proof {
            assert(self@.accounts =~= ledger_after_release(old(self)@, id@).accounts);
            Self::lemma_release_balanced(old(self)@, id@);
        }
    }
}

/// A cheap, cloneable handle identifying the owner of an allocation.
///
/// Clones name the same account, so accounting is unified however many clones
/// there are. Two tenants made separately have separate accounts, even under one
/// name.
#[derive(Debug)]
pub struct Tenant {
    id: TenantId,
    account: usize,
}

impl Tenant {
    /// The tenant's identifier.
    pub closed spec fn ident(&self) -> TenantId {
        self.id
    }

    /// The number of the tenant's account in its ledger.
    pub closed spec fn account(&self) -> nat {
        self.account as nat
    }

    /// A tenant with an account of its own, at zero.
    pub fn new<T: Into<TenantId>>(ledger: &mut Ledger, id: T) -> (tenant: Self)
        requires
            old(ledger).wf(),
        ensures
            final(ledger).wf(),
            call_ensures(T::into, (id,), tenant.ident()),
            tenant.account() == old(ledger)@.accounts.len(),
            final(ledger)@ == (LedgerView {
                accounts: old(ledger)@.accounts.push(no_usage()),
                history: old(ledger)@.history.push(seq![0u64]),
                ..old(ledger)@
            }),
    {
        let id = id.into();
        let account: usize = ledger.open_account();
        Tenant { id, account }
    }

    /// The tenant's identifier.
    pub fn id(&self) -> (id: &TenantId)
        ensures
            *id == self.ident(),
    {
        &self.id
    }

    /// The tenant's counters.
    pub fn stats<'a>(&self, ledger: &'a Ledger) -> (stats: &'a TenantStats)
        requires
            ledger.knows(self),
        ensures
            stats@ == ledger@.accounts[self.account() as int],
    {
        &ledger.accounts[self.account]
    }

    /// The number of the tenant's account.
    pub(crate) fn account_number(&self) -> (account: usize)
        ensures
            account == self.account(),
    {
        self.account
    }
}

impl Clone for Tenant {
    fn clone(&self) -> (r: Self)
        ensures
            r.ident()@ == self.ident()@,
            r.account() == self.account(),
    {
        Tenant { id: self.id.clone(), account: self.account }
    }
}

} // verus!
