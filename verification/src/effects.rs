//! What each operation does, told in plain numbers.
//!
//! The contracts describe an operation by the state that it leads to. The laws here
//! take that description apart: they say of every operation which counter moves by
//! how much, which list gains or loses which entry, which byte changes, and that
//! everything else stays as it is.
use vstd::prelude::*;
#[allow(unused_imports)]
use vstd::arithmetic::power2::{is_pow2, pow2};
#[allow(unused_imports)]
use vstd::std_specs::cmp::PartialEqSpec;

#[allow(unused_imports)]
use crate::chunk::{opened_chunk_pool, Chunk, ChunkBuilder};
#[allow(unused_imports)]
use crate::counter::wrap64;
#[allow(unused_imports)]
use crate::memory::{layout_fits, spliced, zeros, Site};
#[allow(unused_imports)]
use crate::mmap::HugePageSource;
#[allow(unused_imports)]
use crate::packing::{
    after_chunk_close, after_chunk_release, aligned_up, allocated, alone, apart, buffer_ok,
    chunk_content, chunk_ok, claim_address, claim_bytes, claim_ok, has_room, heap_align,
    lemma_aligned_up, lemma_allocated, lemma_heap_align, lemma_multiple_of_multiple, lemma_retired,
    on, opened_page, others_kept, pointer_align, retired, with_bytes, with_chunk_handle, with_seal,
    ChunkPoolView, ClaimView, Origin,
};
#[allow(unused_imports)]
use crate::page::{after_clone, after_drop, after_seal, BuilderView, Page};
#[allow(unused_imports)]
use crate::pool::{
    after_close, after_return, after_take, fresh_builder, next_taken, opened_pool, pool_ok,
    prewarmed, sealed_from, site_for, takes_fresh, PoolView, SealedPage,
};
#[allow(unused_imports)]
use crate::slots::live;
#[allow(unused_imports)]
use crate::source::{heap_page_align, heap_page_size, POINTER_SIZE, SourceLog};
#[allow(unused_imports)]
use crate::tally::{place, tally};
#[allow(unused_imports)]
use crate::tenant::{
    balanced, charged, ever_count, ledger_after_allocate, ledger_after_release, no_usage,
    open_bytes, open_count, usage_after_allocate, usage_after_release, Charge, Grain, Ledger,
    LedgerView, Tenant, TenantCounters, TenantId,
};
#[allow(unused_imports)]
use crate::text::{decimal, digit, full_text};

verus! {

// ---------------------------------------------------------------------------
// Counters, tables and bytes
// ---------------------------------------------------------------------------
/// A counter moves by what is added or taken off, and goes round at the ends of the
/// range of `u64` and nowhere else.
pub proof fn law_counter_moves_by_what_is_counted(c: u64, n: u64)
    ensures
        c + n <= u64::MAX ==> wrap64(c + n) == c + n,
        c + n > u64::MAX ==> wrap64(c + n) == c + n - u64::MAX - 1,
        n <= c ==> wrap64(c - n) == c - n,
        n > c ==> wrap64(c - n) == c - n + u64::MAX + 1,
{
}

/// A sum over records is zero for none, and grows by the weight of each record added.
pub proof fn law_sum_counts_every_record<T>(s: Seq<T>, x: T, weight: spec_fn(T) -> nat)
    ensures
        tally(Seq::<T>::empty(), weight) == 0,
        tally(s.push(x), weight) == tally(s, weight) + weight(x),
{
    crate::tally::lemma_tally_push(s, x, weight);
}

/// A slot is occupied if there is one with that number and it is not empty. Placing a
/// value fills the slot of that number, or adds one, and leaves every other.
pub proof fn law_placing_fills_one_slot<T>(s: Seq<Option<T>>, k: int, x: T, i: int)
    requires
        0 <= k <= s.len(),
    ensures
        live(s, i) <==> 0 <= i < s.len() && s[i] is Some,
        place(s, k, Some(x)).len() == if k < s.len() {
            s.len()
        } else {
            s.len() + 1
        },
        live(place(s, k, Some(x)), k),
        place(s, k, Some(x))[k] == Some(x),
        0 <= i < s.len() && i != k ==> place(s, k, Some(x))[i] == s[i],
{
}

/// Writing `data` from `at` on replaces the bytes of that range and no other.
pub proof fn law_writing_replaces_the_range(bytes: Seq<u8>, at: int, data: Seq<u8>, i: int)
    requires
        0 <= at,
        at + data.len() <= bytes.len(),
        0 <= i < bytes.len(),
    ensures
        spliced(bytes, at, data).len() == bytes.len(),
        at <= i < at + data.len() ==> spliced(bytes, at, data)[i] == data[i - at],
        i < at || at + data.len() <= i ==> spliced(bytes, at, data)[i] == bytes[i],
{
}

/// New memory has as many bytes as asked for, and each of them is zero.
pub proof fn law_new_memory_is_zero(n: nat, i: int)
    requires
        0 <= i < n,
    ensures
        zeros(n).len() == n,
        zeros(n)[i] == 0,
{
}

/// The heap has a page of every size from that of a pointer up to where the size,
/// rounded up to a multiple of eight, passes `isize::MAX`. Heap pages are aligned to
/// a cache line of 64 bytes, but for the last few sizes, which are aligned to eight.
pub proof fn law_heap_page_sizes(page_size: usize)
    ensures
        POINTER_SIZE * 8 == usize::BITS,
        heap_page_size(page_size) <==> POINTER_SIZE <= page_size <= isize::MAX - 7,
        page_size <= isize::MAX - 63 ==> heap_page_align(page_size as nat) == 64,
        page_size > isize::MAX - 63 ==> heap_page_align(page_size as nat) == 8,
{
}

/// There is memory of `size` bytes aligned to `align` exactly as long as the two
/// together do not pass `isize::MAX` by more than one. A heap allocation is aligned to
/// what is asked for, and to the size of a pointer at least.
pub proof fn law_what_the_heap_can_align(size: nat, align: nat)
    ensures
        layout_fits(size, align) <==> size + align <= isize::MAX + 1,
        align >= POINTER_SIZE ==> heap_align(align) == align,
        align < POINTER_SIZE ==> heap_align(align) == POINTER_SIZE,
        pointer_align() == POINTER_SIZE,
{
}

/// The sizes that the library falls back on.
pub proof fn law_default_sizes()
    ensures
        crate::chunk::ChunkPool::DEFAULT_PAGE_SIZE == 16384,
        crate::chunk::ChunkPool::DEFAULT_ALIGN == POINTER_SIZE,
        crate::mmap::FALLBACK_OS_PAGE == 4096,
        HugePageSource::SIZE_2MIB == 2097152,
        HugePageSource::SIZE_1GIB == 1073741824,
        crate::mmap::MAP_HUGE_SHIFT == 26,
{
}

/// A source of huge pages knows the binary logarithm of its page size.
pub proof fn law_huge_page_size_is_a_power_of_two(source: &HugePageSource)
    requires
        source.wf(),
    ensures
        source.log2() >= 0,
        pow2(source.log2() as nat) == source.spec_page_size(),
        source.spec_page_size() == 2097152 || source.spec_page_size() == 1073741824,
{
    vstd::arithmetic::power2::lemma2_to64();
}

// ---------------------------------------------------------------------------
// Messages
// ---------------------------------------------------------------------------
/// The number that a digit stands for.
pub open spec fn digit_value(c: char) -> nat {
    (c as u32 - '0' as u32) as nat
}

/// The number that a text of digits stands for.
pub open spec fn text_value(s: Seq<char>) -> nat
    decreases s.len(),
{
    if s.len() == 0 {
        0
    } else {
        10 * text_value(s.drop_last()) + digit_value(s.last())
    }
}

/// A digit is one character, from '0' to '9', that stands for its number.
proof fn lemma_digit(d: nat)
    requires
        d < 10,
    ensures
        digit(d).len() == 1,
        '0' <= digit(d)[0] <= '9',
        digit_value(digit(d)[0]) == d,
{
    reveal_strlit("0");
    reveal_strlit("1");
    reveal_strlit("2");
    reveal_strlit("3");
    reveal_strlit("4");
    reveal_strlit("5");
    reveal_strlit("6");
    reveal_strlit("7");
    reveal_strlit("8");
    reveal_strlit("9");
}

/// A number in decimal is made of digits, has no leading zero, and reads as that
/// number.
pub proof fn law_decimal_reads_as_its_number(n: nat)
    ensures
        text_value(decimal(n)) == n,
        decimal(n).len() >= 1,
        decimal(n)[0] == '0' ==> n == 0,
        forall|i: int| 0 <= i < decimal(n).len() ==> '0' <= #[trigger] decimal(n)[i] <= '9',
    decreases n,
{
    reveal_with_fuel(text_value, 2);
    let s = decimal(n);
    lemma_digit(n % 10);
    if n < 10 {
        assert(s == digit(n));
        assert(s.drop_last() =~= Seq::empty());
        assert(s.last() == digit(n)[0]);
    } else {
        law_decimal_reads_as_its_number(n / 10);
        assert(s.drop_last() =~= decimal(n / 10));
        assert(s.last() == digit(n % 10)[0]);
        assert(s[0] == decimal(n / 10)[0]);
        assert forall|i: int| 0 <= i < s.len() implies '0' <= #[trigger] s[i] <= '9' by {
            if i < s.len() - 1 {
                assert(s[i] == decimal(n / 10)[i]);
            }
        }
    }
}

/// The message about an append that does not fit names what was attempted, then what
/// is used, then what there is.
pub proof fn law_message_names_its_numbers_in_order(
    head: Seq<char>,
    middle: Seq<char>,
    attempted: nat,
    len: nat,
    capacity: nat,
)
    ensures
        ({
            let s = full_text(head, middle, attempted, len, capacity);
            let a = head.len() as int;
            let b = a + decimal(attempted).len() as int;
            let c = b + middle.len() as int;
            let d = c + decimal(len).len() as int;
            let e = d + 1 + decimal(capacity).len() as int;
            &&& s.len() == e + 5
            &&& s.subrange(0, a) == head
            &&& text_value(s.subrange(a, b)) == attempted
            &&& s.subrange(b, c) == middle
            &&& text_value(s.subrange(c, d)) == len
            &&& s[d] == '/'
            &&& text_value(s.subrange(d + 1, e)) == capacity
            &&& s.subrange(e, e + 5) == seq![' ', 'u', 's', 'e', 'd']
        }),
{
    reveal_strlit("/");
    reveal_strlit(" used");
    let s = full_text(head, middle, attempted, len, capacity);
    let a = head.len() as int;
    let b = a + decimal(attempted).len() as int;
    let c = b + middle.len() as int;
    let d = c + decimal(len).len() as int;
    let e = d + 1 + decimal(capacity).len() as int;
    law_decimal_reads_as_its_number(attempted);
    law_decimal_reads_as_its_number(len);
    law_decimal_reads_as_its_number(capacity);
    assert(s.subrange(0, a) =~= head);
    assert(s.subrange(a, b) =~= decimal(attempted));
    assert(s.subrange(b, c) =~= middle);
    assert(s.subrange(c, d) =~= decimal(len));
    assert(s.subrange(d + 1, e) =~= decimal(capacity));
    assert(s.subrange(e, e + 5) =~= seq![' ', 'u', 's', 'e', 'd']);
}

// ---------------------------------------------------------------------------
// Tenants
// ---------------------------------------------------------------------------
/// Two identifiers are equal exactly if their texts are: equal texts make equal
/// identifiers, and texts that differ anywhere make different ones.
pub proof fn law_identifiers_are_equal_by_their_text(a: TenantId, b: TenantId, i: int)
    ensures
        a@ == b@ ==> a.eq_spec(&b),
        a.eq_spec(&b) ==> a@.len() == b@.len(),
        a.eq_spec(&b) && 0 <= i < a@.len() ==> a@[i] == b@[i],
        a@.len() != b@.len() ==> !a.eq_spec(&b),
        0 <= i < a@.len() && i < b@.len() && a@[i] != b@[i] ==> !a.eq_spec(&b),
{
}

/// Equality of identifiers is an equivalence.
pub proof fn law_identifiers_compare_as_equals_do(a: TenantId, b: TenantId, c: TenantId)
    ensures
        a.eq_spec(&a),
        a.eq_spec(&b) ==> b.eq_spec(&a),
        a.eq_spec(&b) && b.eq_spec(&c) ==> a.eq_spec(&c),
{
}

/// A tenant starts with every counter at zero.
pub proof fn law_tenants_start_at_zero()
    ensures
        no_usage().bytes_in_use == 0,
        no_usage().peak_bytes_in_use == 0,
        no_usage().pages_in_use == 0,
        no_usage().total_pages_allocated == 0,
        no_usage().chunks_in_use == 0,
        no_usage().total_chunks_allocated == 0,
{
}

/// An allocation adds its bytes to what is held and one to the two counters of its
/// unit. The peak becomes the sum where that is larger, and stays otherwise. The
/// counters of the other unit stay.
pub proof fn law_allocation_is_counted_once(c: TenantCounters, bytes: nat)
    requires
        c.bytes_in_use + bytes <= u64::MAX,
    ensures
        ({
            let p = usage_after_allocate(c, Grain::Page, bytes);
            &&& p.bytes_in_use == c.bytes_in_use + bytes
            &&& c.bytes_in_use + bytes > c.peak_bytes_in_use ==> p.peak_bytes_in_use
                == c.bytes_in_use + bytes
            &&& c.bytes_in_use + bytes <= c.peak_bytes_in_use ==> p.peak_bytes_in_use
                == c.peak_bytes_in_use
            &&& p.pages_in_use == wrap64(c.pages_in_use + 1)
            &&& p.total_pages_allocated == wrap64(c.total_pages_allocated + 1)
            &&& p.chunks_in_use == c.chunks_in_use
            &&& p.total_chunks_allocated == c.total_chunks_allocated
        }),
        ({
            let p = usage_after_allocate(c, Grain::Chunk, bytes);
            &&& p.bytes_in_use == c.bytes_in_use + bytes
            &&& c.bytes_in_use + bytes > c.peak_bytes_in_use ==> p.peak_bytes_in_use
                == c.bytes_in_use + bytes
            &&& c.bytes_in_use + bytes <= c.peak_bytes_in_use ==> p.peak_bytes_in_use
                == c.peak_bytes_in_use
            &&& p.chunks_in_use == wrap64(c.chunks_in_use + 1)
            &&& p.total_chunks_allocated == wrap64(c.total_chunks_allocated + 1)
            &&& p.pages_in_use == c.pages_in_use
            &&& p.total_pages_allocated == c.total_pages_allocated
        }),
{
}

/// A release takes its bytes off what is held and one off the counter in use of its
/// unit. Everything else stays: the totals, the peak, and the other unit.
pub proof fn law_release_is_counted_once(c: TenantCounters, bytes: nat)
    requires
        bytes <= u64::MAX,
    ensures
        ({
            let p = usage_after_release(c, Grain::Page, bytes);
            &&& p.bytes_in_use == wrap64(c.bytes_in_use - bytes)
            &&& bytes <= c.bytes_in_use ==> p.bytes_in_use == c.bytes_in_use - bytes
            &&& p.pages_in_use == wrap64(c.pages_in_use - 1)
            &&& p.peak_bytes_in_use == c.peak_bytes_in_use
            &&& p.total_pages_allocated == c.total_pages_allocated
            &&& p.chunks_in_use == c.chunks_in_use
            &&& p.total_chunks_allocated == c.total_chunks_allocated
        }),
        ({
            let p = usage_after_release(c, Grain::Chunk, bytes);
            &&& p.bytes_in_use == wrap64(c.bytes_in_use - bytes)
            &&& bytes <= c.bytes_in_use ==> p.bytes_in_use == c.bytes_in_use - bytes
            &&& p.chunks_in_use == wrap64(c.chunks_in_use - 1)
            &&& p.peak_bytes_in_use == c.peak_bytes_in_use
            &&& p.total_pages_allocated == c.total_pages_allocated
            &&& p.pages_in_use == c.pages_in_use
            &&& p.total_chunks_allocated == c.total_chunks_allocated
        }),
{
}

/// A charge is written to the account of the tenant that allocates, once, with the
/// unit and the bytes of the allocation. No other account and no earlier charge
/// changes.
pub proof fn law_charge_is_written_once(
    v: LedgerView,
    a: nat,
    grain: Grain,
    bytes: nat,
    b: nat,
    id: nat,
)
    requires
        a < v.accounts.len(),
        b < v.accounts.len(),
        id < v.charges.len(),
        v.accounts[a as int].bytes_in_use + bytes <= u64::MAX,
    ensures
        ({
            let w = ledger_after_allocate(v, a, grain, bytes);
            let c = w.charges[v.charges.len() as int];
            &&& w.accounts.len() == v.accounts.len()
            &&& w.accounts[a as int].bytes_in_use == v.accounts[a as int].bytes_in_use + bytes
            &&& w.accounts[a as int] == usage_after_allocate(v.accounts[a as int], grain, bytes)
            &&& b != a ==> w.accounts[b as int] == v.accounts[b as int]
            &&& w.charges.len() == v.charges.len() + 1
            &&& w.charges[id as int] == v.charges[id as int]
            &&& c.account == a
            &&& c.grain == grain
            &&& c.bytes == bytes
            &&& c.open
        }),
{
}

/// Settling a charge takes its bytes off its own account and closes it. No other
/// account and no other charge changes.
pub proof fn law_charge_is_settled_once(v: LedgerView, id: nat, b: nat, other: nat)
    requires
        id < v.charges.len(),
        other < v.charges.len(),
        b < v.accounts.len(),
        v.charges[id as int].account < v.accounts.len(),
    ensures
        ({
            let c = v.charges[id as int];
            let a = c.account as int;
            let w = ledger_after_release(v, id);
            &&& w.accounts.len() == v.accounts.len()
            &&& w.accounts[a] == usage_after_release(v.accounts[a], c.grain, c.bytes)
            &&& b != a ==> w.accounts[b as int] == v.accounts[b as int]
            &&& w.charges.len() == v.charges.len()
            &&& !w.charges[id as int].open
            &&& w.charges[id as int].account == c.account
            &&& w.charges[id as int].grain == c.grain
            &&& w.charges[id as int].bytes == c.bytes
            &&& other != id ==> w.charges[other as int] == v.charges[other as int]
        }),
{
}

/// A charge stands open for an allocation exactly if it names its account, its unit and
/// its bytes, and is not settled.
pub proof fn law_open_charge_names_its_allocation(
    v: LedgerView,
    id: nat,
    a: nat,
    grain: Grain,
    bytes: nat,
)
    ensures
        charged(v, id, a, grain, bytes) <==> {
            &&& id < v.charges.len()
            &&& a < v.accounts.len()
            &&& v.charges[id as int].account == a
            &&& v.charges[id as int].grain == grain
            &&& v.charges[id as int].bytes == bytes
            &&& v.charges[id as int].open
        },
{
}

/// A ledger knows every tenant whose account it has, and can charge a tenant for all
/// that fits its counter.
pub proof fn law_who_can_be_charged(ledger: &Ledger, tenant: &Tenant, bytes: nat)
    ensures
        ledger.knows(tenant) <==> tenant.account() < ledger@.accounts.len(),
        ledger.has_room(tenant, bytes) <==> ledger@.accounts[tenant.account() as int].bytes_in_use
            + bytes <= u64::MAX,
{
}

/// The counters of an account follow its charges: what it holds is the sum of the
/// bytes of those that stand open, what it has in use counts them by unit, and the
/// totals count all that were ever made.
pub proof fn law_counters_follow_the_charges(ledger: &Ledger, a: nat)
    requires
        ledger.wf(),
        a < ledger@.accounts.len(),
    ensures
        ({
            let c = ledger@.accounts[a as int];
            let charges = ledger@.charges;
            &&& c.bytes_in_use == tally(
                charges,
                |x: Charge|
                    if x.account == a && x.open {
                        x.bytes
                    } else {
                        0
                    },
            )
            &&& c.pages_in_use == wrap64(
                tally(
                    charges,
                    |x: Charge|
                        if x.account == a && x.grain is Page && x.open {
                            1
                        } else {
                            0
                        },
                ) as int,
            )
            &&& c.chunks_in_use == wrap64(
                tally(
                    charges,
                    |x: Charge|
                        if x.account == a && x.grain is Chunk && x.open {
                            1
                        } else {
                            0
                        },
                ) as int,
            )
            &&& c.total_pages_allocated == wrap64(
                tally(
                    charges,
                    |x: Charge|
                        if x.account == a && x.grain is Page {
                            1
                        } else {
                            0
                        },
                ) as int,
            )
            &&& c.total_chunks_allocated == wrap64(
                tally(
                    charges,
                    |x: Charge|
                        if x.account == a && x.grain is Chunk {
                            1
                        } else {
                            0
                        },
                ) as int,
            )
        }),
{
    assert(balanced(ledger@, a));
    let charges = ledger@.charges;
    crate::tally::lemma_tally_agree(
        charges,
        open_bytes(a),
        |x: Charge|
            if x.account == a && x.open {
                x.bytes
            } else {
                0
            },
    );
    crate::tally::lemma_tally_agree(
        charges,
        open_count(a, Grain::Page),
        |x: Charge|
            if x.account == a && x.grain is Page && x.open {
                1
            } else {
                0
            },
    );
    crate::tally::lemma_tally_agree(
        charges,
        open_count(a, Grain::Chunk),
        |x: Charge|
            if x.account == a && x.grain is Chunk && x.open {
                1
            } else {
                0
            },
    );
    crate::tally::lemma_tally_agree(
        charges,
        ever_count(a, Grain::Page),
        |x: Charge|
            if x.account == a && x.grain is Page {
                1
            } else {
                0
            },
    );
    crate::tally::lemma_tally_agree(
        charges,
        ever_count(a, Grain::Chunk),
        |x: Charge|
            if x.account == a && x.grain is Chunk {
                1
            } else {
                0
            },
    );
}

// ---------------------------------------------------------------------------
// Pages
// ---------------------------------------------------------------------------
/// What no operation on pages changes: the size and alignment of pages, and where the
/// source stood when the pool was opened.
pub open spec fn same_pool(v: PoolView, w: PoolView) -> bool {
    &&& w.page_size == v.page_size
    &&& w.page_align == v.page_align
    &&& w.opened == v.opened
}

/// A pool opens with nothing in it, every counter at zero, and the source as it was.
pub proof fn law_pool_opens_empty(page_size: nat, page_align: nat, log: SourceLog)
    ensures
        ({
            let v = opened_pool(page_size, page_align, log);
            &&& v.page_size == page_size
            &&& v.page_align == page_align
            &&& v.counters.allocations_from_heap == 0
            &&& v.counters.pages_in_use == 0
            &&& v.counters.free_pages == 0
            &&& v.counters.return_queue_drains == 0
            &&& v.counters.prewarmed_pages == 0
            &&& v.sites.len() == 0
            &&& v.frames.len() == 0
            &&& v.owned.len() == 0
            &&& v.returned.len() == 0
            &&& v.sealed.len() == 0
            &&& v.opened == log
            &&& v.log == log
            &&& !v.closed
        }),
{
}

/// A page is taken from the end of the owner's list while there is one on it: that
/// page goes out, and the list gets shorter by it. The return queue and the source
/// are left alone.
pub proof fn law_page_is_taken_from_the_owner_first(v: PoolView, s: Site, i: int)
    requires
        v.owned.len() > 0,
        v.owned.last() < v.frames.len(),
    ensures
        ({
            let p = v.owned[v.owned.len() - 1];
            let w = after_take(v, s);
            &&& next_taken(v) == p
            &&& !takes_fresh(v)
            &&& site_for(v, s) <==> s == v.sites[p as int]
            &&& w.owned.len() == v.owned.len() - 1
            &&& 0 <= i < w.owned.len() ==> w.owned[i] == v.owned[i]
            &&& w.returned == v.returned
            &&& w.frames.len() == v.frames.len()
            &&& w.frames[p as int] is Held
            &&& 0 <= i < v.frames.len() && i != p ==> w.frames[i] == v.frames[i]
            &&& w.sites == v.sites
            &&& w.sealed == v.sealed
            &&& w.counters.pages_in_use == wrap64(v.counters.pages_in_use + 1)
            &&& w.counters.free_pages == wrap64(v.counters.free_pages - 1)
            &&& w.counters.allocations_from_heap == v.counters.allocations_from_heap
            &&& w.counters.return_queue_drains == v.counters.return_queue_drains
            &&& w.counters.prewarmed_pages == v.counters.prewarmed_pages
            &&& w.log == v.log
            &&& w.closed == v.closed
            &&& same_pool(v, w)
        }),
{
}

/// With the owner's list empty, the whole return queue becomes the owner's list, in
/// its order, and the page returned last is taken from it. That is one drain. The
/// source is left alone.
pub proof fn law_return_queue_is_drained_when_the_owner_runs_out(v: PoolView, s: Site, i: int)
    requires
        v.owned.len() == 0,
        v.returned.len() > 0,
        v.returned.last() < v.frames.len(),
    ensures
        ({
            let p = v.returned[v.returned.len() - 1];
            let w = after_take(v, s);
            &&& next_taken(v) == p
            &&& !takes_fresh(v)
            &&& site_for(v, s) <==> s == v.sites[p as int]
            &&& w.owned.len() == v.returned.len() - 1
            &&& 0 <= i < w.owned.len() ==> w.owned[i] == v.returned[i]
            &&& w.returned.len() == 0
            &&& w.frames.len() == v.frames.len()
            &&& w.frames[p as int] is Held
            &&& 0 <= i < v.frames.len() && i != p ==> w.frames[i] == v.frames[i]
            &&& w.sites == v.sites
            &&& w.sealed == v.sealed
            &&& w.counters.pages_in_use == wrap64(v.counters.pages_in_use + 1)
            &&& w.counters.free_pages == wrap64(v.counters.free_pages - 1)
            &&& w.counters.return_queue_drains == wrap64(v.counters.return_queue_drains + 1)
            &&& w.counters.allocations_from_heap == v.counters.allocations_from_heap
            &&& w.counters.prewarmed_pages == v.counters.prewarmed_pages
            &&& w.log == v.log
            &&& w.closed == v.closed
            &&& same_pool(v, w)
        }),
{
}

/// With both lists empty, one page is obtained from the source: it gets the next
/// serial number and goes out at once. It starts at a multiple of the alignment of
/// pages, at an address that was read off it, and was not prefaulted.
pub proof fn law_source_is_asked_when_nothing_is_free(v: PoolView, s: Site, i: int)
    requires
        v.owned.len() == 0,
        v.returned.len() == 0,
        v.sites.len() == v.frames.len(),
    ensures
        ({
            let p = v.frames.len() as int;
            let w = after_take(v, s);
            &&& next_taken(v) == p
            &&& takes_fresh(v)
            &&& site_for(v, s) <==> s.address % v.page_align == 0 && s.measured && s.prefaults
                == 0
            &&& w.owned.len() == 0
            &&& w.returned.len() == 0
            &&& w.frames.len() == p + 1
            &&& w.sites.len() == p + 1
            &&& w.frames[p] is Held
            &&& w.sites[p] == s
            &&& 0 <= i < p ==> w.frames[i] == v.frames[i] && w.sites[i] == v.sites[i]
            &&& w.sealed == v.sealed
            &&& w.counters.pages_in_use == wrap64(v.counters.pages_in_use + 1)
            &&& w.counters.allocations_from_heap == wrap64(v.counters.allocations_from_heap + 1)
            &&& w.counters.free_pages == v.counters.free_pages
            &&& w.counters.return_queue_drains == v.counters.return_queue_drains
            &&& w.counters.prewarmed_pages == v.counters.prewarmed_pages
            &&& w.log.allocated == v.log.allocated + 1
            &&& w.log.released == v.log.released
            &&& w.log.prefaulted == v.log.prefaulted
            &&& w.closed == v.closed
            &&& same_pool(v, w)
        }),
{
}

/// A page that comes back goes to the end of the return queue. The owner's list and
/// the source are left alone.
pub proof fn law_page_comes_back_to_the_return_queue(v: PoolView, serial: nat, i: int)
    requires
        serial < v.frames.len(),
    ensures
        ({
            let w = after_return(v, serial);
            &&& w.returned.len() == v.returned.len() + 1
            &&& w.returned[v.returned.len() as int] == serial
            &&& 0 <= i < v.returned.len() ==> w.returned[i] == v.returned[i]
            &&& w.owned == v.owned
            &&& w.frames.len() == v.frames.len()
            &&& w.frames[serial as int] is Free
            &&& 0 <= i < v.frames.len() && i != serial ==> w.frames[i] == v.frames[i]
            &&& w.sites == v.sites
            &&& w.sealed == v.sealed
            &&& w.counters.pages_in_use == wrap64(v.counters.pages_in_use - 1)
            &&& w.counters.free_pages == wrap64(v.counters.free_pages + 1)
            &&& w.counters.allocations_from_heap == v.counters.allocations_from_heap
            &&& w.counters.return_queue_drains == v.counters.return_queue_drains
            &&& w.counters.prewarmed_pages == v.counters.prewarmed_pages
            &&& w.log == v.log
            &&& w.closed == v.closed
            &&& same_pool(v, w)
        }),
{
}

/// Prewarming by `n` obtains `n` pages, prefaults each of them once, and puts them
/// behind what is on the owner's list. Nothing goes out, and nothing else changes.
pub proof fn law_prewarming_adds_that_many_pages(v: PoolView, w: PoolView, n: nat, i: int)
    requires
        v.sites.len() == v.frames.len(),
        prewarmed(v, w, n),
    ensures
        w.owned.len() == v.owned.len() + n,
        w.frames.len() == v.frames.len() + n,
        w.sites.len() == v.frames.len() + n,
        0 <= i < v.owned.len() ==> w.owned[i] == v.owned[i],
        0 <= i < v.frames.len() ==> w.frames[i] == v.frames[i] && w.sites[i] == v.sites[i],
        0 <= i < n ==> {
            let p = v.frames.len() + i;
            &&& w.owned[v.owned.len() + i] == p
            &&& w.frames[p] is Free
            &&& w.sites[p].prefaults == 1
            &&& w.sites[p].measured
            &&& w.sites[p].address % v.page_align == 0
        },
        w.returned == v.returned,
        w.sealed == v.sealed,
        w.counters.allocations_from_heap == wrap64(v.counters.allocations_from_heap + n),
        w.counters.free_pages == wrap64(v.counters.free_pages + n),
        w.counters.prewarmed_pages == wrap64(v.counters.prewarmed_pages + n),
        w.counters.pages_in_use == v.counters.pages_in_use,
        w.counters.return_queue_drains == v.counters.return_queue_drains,
        w.log.allocated == v.log.allocated + n,
        w.log.prefaulted == v.log.prefaulted + n,
        w.log.released == v.log.released,
        w.closed == v.closed,
        same_pool(v, w),
{
    let new = crate::pool::new_sites(v, w);
    if 0 <= i < n {
        assert(w.sites[v.frames.len() + i] == new[i]);
    }
}

/// When the owner is gone, as many pages have been released as were on the owner's
/// list. What is out and what is on the return queue stays, and so do the counters.
pub proof fn law_closing_releases_the_owners_list(v: PoolView)
    ensures
        ({
            let w = after_close(v);
            &&& w.closed
            &&& w.log.released == v.log.released + v.owned.len()
            &&& w.log.allocated == v.log.allocated
            &&& w.log.prefaulted == v.log.prefaulted
            &&& w.owned == v.owned
            &&& w.returned == v.returned
            &&& w.frames == v.frames
            &&& w.sites == v.sites
            &&& w.sealed == v.sealed
            &&& w.counters == v.counters
            &&& same_pool(v, w)
        }),
{
}

/// A new builder has the whole page, with no content yet, and stands for the page
/// that is taken next and for the charge that is written next. A page from the source
/// holds zeros.
pub proof fn law_new_builder_has_an_empty_page(
    b: BuilderView,
    v: PoolView,
    ledger: LedgerView,
    account: nat,
    i: int,
)
    requires
        fresh_builder(b, v, ledger, account),
    ensures
        b.len == 0,
        b.content().len() == 0,
        b.bytes.len() == v.page_size,
        v.owned.len() == 0 && v.returned.len() == 0 && 0 <= i < v.page_size ==> b.bytes[i] == 0,
        v.owned.len() > 0 ==> b.serial == v.owned.last() && b.site == v.sites[v.owned.last()
            as int],
        v.owned.len() == 0 && v.returned.len() > 0 ==> b.serial == v.returned.last() && b.site
            == v.sites[v.returned.last() as int],
        v.owned.len() == 0 && v.returned.len() == 0 ==> b.serial == v.frames.len(),
        b.account == account,
        b.charge == ledger.charges.len(),
{
}

/// The content of a builder is the first `len` bytes of its page. Sealed, the builder
/// becomes a page with that content on the same memory, for the same account and
/// charge, with one handle.
pub proof fn law_sealed_builder_is_the_same_page(b: BuilderView, i: int)
    requires
        b.len <= b.bytes.len(),
    ensures
        b.content().len() == b.len,
        0 <= i < b.len ==> b.content()[i] == b.bytes[i],
        b.sealed().content.len() == b.len,
        0 <= i < b.len ==> b.sealed().content[i] == b.bytes[i],
        b.sealed().site == b.site,
        b.sealed().serial == b.serial,
        b.sealed().account == b.account,
        b.sealed().charge == b.charge,
        b.sealed().handles == 1,
{
}

/// A builder holds its page exactly if it has all of it, the page is out of the pool,
/// and it is the memory that the pool obtained under its serial number.
pub proof fn law_held_page_is_out(b: BuilderView, v: PoolView)
    ensures
        b.held_in(v) <==> {
            &&& b.bytes.len() == v.page_size
            &&& b.serial < v.frames.len()
            &&& v.frames[b.serial as int] is Held
            &&& b.site == v.sites[b.serial as int]
        },
{
}

/// Sealing puts the page into the table of sealed pages and changes no other entry,
/// no list and no counter.
pub proof fn law_sealing_adds_one_sealed_page(v: PoolView, key: nat, p: SealedPage, i: int)
    requires
        key <= v.sealed.len(),
        p.serial < v.frames.len(),
    ensures
        ({
            let w = after_seal(v, key, p);
            &&& live(w.sealed, key as int)
            &&& w.sealed[key as int]->0 == p
            &&& 0 <= i < v.sealed.len() && i != key ==> w.sealed[i] == v.sealed[i]
            &&& w.frames.len() == v.frames.len()
            &&& w.frames[p.serial as int] is Sealed
            &&& 0 <= i < v.frames.len() && i != p.serial ==> w.frames[i] == v.frames[i]
            &&& w.owned == v.owned
            &&& w.returned == v.returned
            &&& w.sites == v.sites
            &&& w.counters == v.counters
            &&& w.log == v.log
            &&& w.closed == v.closed
            &&& same_pool(v, w)
        }),
{
}

/// A page that is allocated, filled and sealed in one call is the page taken next,
/// with that content, one handle, and the charge written next.
pub proof fn law_filled_page_is_sealed_with_its_content(
    v: PoolView,
    w: PoolView,
    ledger: LedgerView,
    account: nat,
    key: nat,
    content: Seq<u8>,
    i: int,
)
    requires
        pool_ok(v),
        !v.closed,
        sealed_from(v, w, ledger, account, key, content),
    ensures
        !live(v.sealed, key as int),
        live(w.sealed, key as int),
        ({
            let p = w.sealed[key as int]->0;
            &&& p.content == content
            &&& p.handles == 1
            &&& p.account == account
            &&& p.charge == ledger.charges.len()
            &&& v.owned.len() > 0 ==> p.serial == v.owned.last()
            &&& v.owned.len() == 0 && v.returned.len() > 0 ==> p.serial == v.returned.last()
            &&& v.owned.len() == 0 && v.returned.len() == 0 ==> p.serial == v.frames.len()
            &&& w.frames[p.serial as int] is Sealed
            &&& w.sites[p.serial as int] == p.site
        }),
        live(v.sealed, i) ==> live(w.sealed, i) && w.sealed[i] == v.sealed[i],
        w.counters.pages_in_use == wrap64(v.counters.pages_in_use + 1),
{
    let s = w.sealed[key as int]->0.site;
    crate::pool::lemma_take_ok(v, s);
}

/// Cloning a sealed page raises its number of handles by exactly one, and changes
/// nothing else.
pub proof fn law_cloning_a_page_adds_one_handle(v: PoolView, key: nat, i: int)
    requires
        live(v.sealed, key as int),
    ensures
        ({
            let p = v.sealed[key as int]->0;
            let w = after_clone(v, key);
            let q = w.sealed[key as int]->0;
            &&& live(w.sealed, key as int)
            &&& q.handles == p.handles + 1
            &&& q.content == p.content
            &&& q.site == p.site
            &&& q.serial == p.serial
            &&& q.account == p.account
            &&& q.charge == p.charge
            &&& w.sealed.len() == v.sealed.len()
            &&& 0 <= i < v.sealed.len() && i != key ==> w.sealed[i] == v.sealed[i]
            &&& w.frames == v.frames
            &&& w.owned == v.owned
            &&& w.returned == v.returned
            &&& w.sites == v.sites
            &&& w.counters == v.counters
            &&& w.log == v.log
            &&& w.closed == v.closed
            &&& same_pool(v, w)
        }),
{
}

/// Giving up a handle that is not the last lowers the number of handles by exactly
/// one, and changes nothing else.
pub proof fn law_giving_up_a_page_handle_takes_one_off(v: PoolView, key: nat, i: int)
    requires
        live(v.sealed, key as int),
        v.sealed[key as int]->0.handles > 1,
    ensures
        ({
            let p = v.sealed[key as int]->0;
            let w = after_drop(v, key);
            let q = w.sealed[key as int]->0;
            &&& live(w.sealed, key as int)
            &&& q.handles == p.handles - 1
            &&& q.content == p.content
            &&& q.site == p.site
            &&& q.serial == p.serial
            &&& q.account == p.account
            &&& q.charge == p.charge
            &&& w.sealed.len() == v.sealed.len()
            &&& 0 <= i < v.sealed.len() && i != key ==> w.sealed[i] == v.sealed[i]
            &&& w.frames == v.frames
            &&& w.owned == v.owned
            &&& w.returned == v.returned
            &&& w.sites == v.sites
            &&& w.counters == v.counters
            &&& w.log == v.log
            &&& w.closed == v.closed
            &&& same_pool(v, w)
        }),
{
}

/// With the last handle the page leaves the table, and its memory joins the end of
/// the return queue.
pub proof fn law_last_page_handle_returns_the_memory(v: PoolView, key: nat, i: int)
    requires
        live(v.sealed, key as int),
        v.sealed[key as int]->0.handles == 1,
        v.sealed[key as int]->0.serial < v.frames.len(),
    ensures
        ({
            let p = v.sealed[key as int]->0;
            let w = after_drop(v, key);
            &&& !live(w.sealed, key as int)
            &&& w.sealed.len() == v.sealed.len()
            &&& 0 <= i < v.sealed.len() && i != key ==> w.sealed[i] == v.sealed[i]
            &&& w.returned.len() == v.returned.len() + 1
            &&& w.returned[v.returned.len() as int] == p.serial
            &&& 0 <= i < v.returned.len() ==> w.returned[i] == v.returned[i]
            &&& w.owned == v.owned
            &&& w.frames[p.serial as int] is Free
            &&& 0 <= i < v.frames.len() && i != p.serial ==> w.frames[i] == v.frames[i]
            &&& w.sites == v.sites
            &&& w.counters.pages_in_use == wrap64(v.counters.pages_in_use - 1)
            &&& w.counters.free_pages == wrap64(v.counters.free_pages + 1)
            &&& w.counters.allocations_from_heap == v.counters.allocations_from_heap
            &&& w.counters.return_queue_drains == v.counters.return_queue_drains
            &&& w.counters.prewarmed_pages == v.counters.prewarmed_pages
            &&& w.log == v.log
            &&& w.closed == v.closed
            &&& same_pool(v, w)
        }),
{
}

/// A handle is one of a pool's exactly if it names a sealed page of it, and shows the
/// length of the content and the size of the page.
pub proof fn law_page_handle_shows_its_page(page: &Page, v: PoolView)
    ensures
        page.in_pool(v) <==> {
            &&& live(v.sealed, page.key() as int)
            &&& page.spec_len() == v.sealed[page.key() as int]->0.content.len()
            &&& page.spec_capacity() == v.page_size
        },
{
}

/// What holds of a pool at any time: it has one site and one place for each page that
/// it obtained; a page on a list is free, and on no list twice; a sealed page is on
/// memory of its own, which is out; and the address of each page was read off it and
/// is a multiple of the alignment of pages.
pub proof fn law_pages_are_in_one_place(v: PoolView, i: int, j: int)
    requires
        pool_ok(v),
    ensures
        v.sites.len() == v.frames.len(),
        0 <= i < v.sites.len() ==> v.sites[i].measured && v.sites[i].address % v.page_align == 0,
        0 <= i < v.owned.len() ==> v.owned[i] < v.frames.len() && v.frames[v.owned[i] as int]
            is Free,
        0 <= i < v.returned.len() ==> v.returned[i] < v.frames.len()
            && v.frames[v.returned[i] as int] is Free,
        0 <= i < j < v.owned.len() ==> v.owned[i] != v.owned[j],
        0 <= i < j < v.returned.len() ==> v.returned[i] != v.returned[j],
        0 <= i < v.owned.len() && 0 <= j < v.returned.len() ==> v.owned[i] != v.returned[j],
        live(v.sealed, i) ==> {
            let p = v.sealed[i]->0;
            &&& p.handles >= 1
            &&& p.content.len() <= v.page_size
            &&& p.serial < v.frames.len()
            &&& v.frames[p.serial as int] is Sealed
            &&& p.site == v.sites[p.serial as int]
        },
        live(v.sealed, i) && live(v.sealed, j) && i != j ==> v.sealed[i]->0.serial
            != v.sealed[j]->0.serial,
{
}

// ---------------------------------------------------------------------------
// Chunks
// ---------------------------------------------------------------------------
/// A chunk pool opens without chunks, without an open page, and with every counter at
/// zero.
pub proof fn law_chunk_pool_opens_empty(pages: PoolView)
    ensures
        ({
            let v = opened_chunk_pool(pages);
            &&& v.pages == pages
            &&& v.counters.total_chunks == 0
            &&& v.counters.chunks_in_use == 0
            &&& v.counters.packed_allocations == 0
            &&& v.counters.dedicated_allocations == 0
            &&& v.counters.oversized_allocations == 0
            &&& v.counters.oversized_bytes_in_use == 0
            &&& v.open is None
            &&& v.buffers.len() == 0
            &&& v.claims.len() == 0
        }),
{
}

/// Each counter of a class counts the allocations of its own class and no others: up
/// to half a page, up to a page, more than a page. The total and the number in use
/// count every allocation, and the oversized bytes grow by the size of a chunk larger
/// than a page.
pub proof fn law_allocation_is_counted_by_its_size(
    v: ChunkPoolView,
    w: ChunkPoolView,
    size: nat,
    align: nat,
    account: nat,
    charge: nat,
    key: nat,
)
    requires
        chunk_ok(v),
        align > 0,
        allocated(v, w, size, align, account, charge, key),
    ensures
        w.counters.total_chunks == wrap64(v.counters.total_chunks + 1),
        w.counters.chunks_in_use == wrap64(v.counters.chunks_in_use + 1),
        w.counters.packed_allocations == if 0 < size <= v.pages.page_size / 2 {
            wrap64(v.counters.packed_allocations + 1)
        } else {
            v.counters.packed_allocations
        },
        w.counters.dedicated_allocations == if 0 < size && v.pages.page_size / 2 < size
            <= v.pages.page_size {
            wrap64(v.counters.dedicated_allocations + 1)
        } else {
            v.counters.dedicated_allocations
        },
        w.counters.oversized_allocations == if 0 < size && size > v.pages.page_size {
            wrap64(v.counters.oversized_allocations + 1)
        } else {
            v.counters.oversized_allocations
        },
        w.counters.oversized_bytes_in_use == if 0 < size && size > v.pages.page_size {
            wrap64(v.counters.oversized_bytes_in_use + size)
        } else {
            v.counters.oversized_bytes_in_use
        },
{
    lemma_allocated(v, w, size, align, account, charge, key);
}

/// An allocation adds one chunk, of the size asked for, charged as told, unsealed and
/// with one handle. Every chunk that was held is as it was.
pub proof fn law_allocation_adds_one_chunk(
    v: ChunkPoolView,
    w: ChunkPoolView,
    size: nat,
    align: nat,
    account: nat,
    charge: nat,
    key: nat,
    k: int,
)
    requires
        chunk_ok(v),
        align > 0,
        allocated(v, w, size, align, account, charge, key),
    ensures
        !live(v.claims, key as int),
        live(w.claims, key as int),
        w.claims[key as int]->0.capacity == size,
        w.claims[key as int]->0.len == 0,
        w.claims[key as int]->0.account == account,
        w.claims[key as int]->0.charge == charge,
        w.claims[key as int]->0.handles == 1,
        !w.claims[key as int]->0.sealed,
        w.claims[key as int]->0.buffer is None <==> size == 0,
        live(v.claims, k) ==> live(w.claims, k) && w.claims[k] == v.claims[k],
        live(w.claims, k) && k != key ==> live(v.claims, k),
{
    lemma_allocated(v, w, size, align, account, charge, key);
    lemma_retired(v);
}

/// A chunk of no bytes needs no memory: no buffer and no page changes.
pub proof fn law_empty_chunk_needs_no_memory(
    v: ChunkPoolView,
    w: ChunkPoolView,
    align: nat,
    account: nat,
    charge: nat,
    key: nat,
)
    requires
        allocated(v, w, 0, align, account, charge, key),
    ensures
        w.pages == v.pages,
        w.buffers == v.buffers,
        w.open == v.open,
        claim_bytes(w, key as int).len() == 0,
{
}

/// There is one multiple of `align` within `align` numbers.
proof fn lemma_one_multiple(n: nat, align: nat, m: nat)
    requires
        align > 0,
        m % align == 0,
        n <= m < n + align,
    ensures
        m == aligned_up(n, align),
{
    lemma_aligned_up(n, align);
    let x = aligned_up(n, align);
    let p = x as int / align as int;
    let q = m as int / align as int;
    vstd::arithmetic::div_mod::lemma_fundamental_div_mod(x as int, align as int);
    vstd::arithmetic::div_mod::lemma_fundamental_div_mod(m as int, align as int);
    assert(p == q) by (nonlinear_arith)
        requires
            x == align * p,
            m == align * q,
            x - m < align,
            m - x < align,
            align > 0,
    ;
}

/// A small chunk goes on the open page whenever it fits there: the page pool does not
/// change, and the chunk starts at `m`, the least multiple of `align` behind what is
/// used of the page.
pub proof fn law_small_chunk_goes_on_the_open_page_if_it_fits(
    v: ChunkPoolView,
    w: ChunkPoolView,
    size: nat,
    align: nat,
    account: nat,
    charge: nat,
    key: nat,
    m: nat,
    i: int,
)
    requires
        chunk_ok(v),
        align > 0,
        allocated(v, w, size, align, account, charge, key),
        0 < size <= v.pages.page_size / 2,
        v.open is Some,
        m % align == 0,
        ({
            let start = v.buffers[v.open->0.buffer as int]->0.site.address + v.open->0.write_offset;
            start <= m < start + align
        }),
        m - v.buffers[v.open->0.buffer as int]->0.site.address + size <= v.pages.page_size,
    ensures
        w.pages == v.pages,
        ({
            let b = v.open->0.buffer;
            let x = v.buffers[b as int]->0;
            let y = w.buffers[b as int]->0;
            let c = w.claims[key as int]->0;
            &&& c.buffer == Some(b)
            &&& c.offset == m - x.site.address
            &&& claim_address(w, key as int) == m
            &&& w.open is Some
            &&& w.open->0.buffer == b
            &&& w.open->0.write_offset == m - x.site.address + size
            &&& live(w.buffers, b as int)
            &&& y.handles == x.handles + 1
            &&& y.bytes == x.bytes
            &&& y.site == x.site
            &&& y.origin == x.origin
            &&& w.buffers.len() == v.buffers.len()
            &&& 0 <= i < v.buffers.len() && i != b ==> w.buffers[i] == v.buffers[i]
        }),
{
    let o = v.open->0;
    assert(live(v.buffers, o.buffer as int));
    lemma_one_multiple(
        v.buffers[o.buffer as int]->0.site.address + o.write_offset,
        align,
        m,
    );
    assert(has_room(v, size, align));
}

/// The open page is given up by taking off its handle. Where that was the last, the
/// page goes back to the page pool; where chunks stand on it, it stays with them.
pub proof fn law_open_page_is_given_up(v: ChunkPoolView, i: int)
    requires
        chunk_ok(v),
    ensures
        retired(v).open is None,
        retired(v).claims == v.claims,
        retired(v).counters == v.counters,
        v.open is None ==> retired(v) == v,
        v.open is Some ==> {
            let b = v.open->0.buffer;
            let x = v.buffers[b as int]->0;
            let w = retired(v);
            &&& x.origin is Pool
            &&& x.handles == 1 ==> !live(w.buffers, b as int) && w.pages == after_return(
                v.pages,
                x.origin->serial,
            )
            &&& x.handles > 1 ==> {
                &&& live(w.buffers, b as int)
                &&& w.buffers[b as int]->0.handles == x.handles - 1
                &&& w.buffers[b as int]->0.bytes == x.bytes
                &&& w.buffers[b as int]->0.site == x.site
                &&& w.buffers[b as int]->0.origin == x.origin
                &&& w.pages == v.pages
            }
            &&& w.buffers.len() == v.buffers.len()
            &&& 0 <= i < v.buffers.len() && i != b ==> w.buffers[i] == v.buffers[i]
        },
{
    if v.open is Some {
        assert(live(v.buffers, v.open->0.buffer as int));
    }
}

/// A small chunk that does not fit on the open page, or finds none open, has the next
/// page of the page pool opened in its place, as a buffer of its own. The open page
/// that was is given up.
pub proof fn law_small_chunk_opens_a_page_if_it_does_not_fit(
    v: ChunkPoolView,
    w: ChunkPoolView,
    size: nat,
    align: nat,
    account: nat,
    charge: nat,
    key: nat,
    m: nat,
)
    requires
        chunk_ok(v),
        align > 0,
        allocated(v, w, size, align, account, charge, key),
        0 < size <= v.pages.page_size / 2,
        v.open is Some ==> {
            let start = v.buffers[v.open->0.buffer as int]->0.site.address + v.open->0.write_offset;
            &&& m % align == 0
            &&& start <= m < start + align
            &&& m - v.buffers[v.open->0.buffer as int]->0.site.address + size
                > v.pages.page_size
        },
    ensures
        w.open is Some,
        ({
            let r = retired(v);
            let p = w.open->0.buffer;
            let x = w.buffers[p as int]->0;
            &&& !live(r.buffers, p as int)
            &&& live(w.buffers, p as int)
            &&& w.pages == after_take(r.pages, x.site)
            &&& site_for(r.pages, x.site)
            &&& x.origin == Origin::Pool { serial: next_taken(r.pages) }
            &&& x.bytes.len() == v.pages.page_size
            &&& takes_fresh(r.pages) ==> x.bytes == zeros(v.pages.page_size)
        }),
{
    lemma_retired(v);
    if v.open is Some {
        let o = v.open->0;
        lemma_one_multiple(
            v.buffers[o.buffer as int]->0.site.address + o.write_offset,
            align,
            m,
        );
    }
    assert(!has_room(v, size, align));
}

/// On a page opened for it, a small chunk starts at the first multiple of `align` that
/// has room behind it on the page.
pub proof fn law_small_chunk_starts_at_the_first_multiple_of_a_new_page(
    v: ChunkPoolView,
    w: ChunkPoolView,
    size: nat,
    align: nat,
    account: nat,
    charge: nat,
    key: nat,
    m: nat,
)
    requires
        chunk_ok(v),
        align > 0,
        allocated(v, w, size, align, account, charge, key),
        0 < size <= v.pages.page_size / 2,
        !has_room(v, size, align),
        m % align == 0,
        ({
            let start = w.buffers[w.open->0.buffer as int]->0.site.address;
            start <= m < start + align && m - start + size <= v.pages.page_size
        }),
    ensures
        ({
            let p = w.open->0.buffer;
            let x = w.buffers[p as int]->0;
            let c = w.claims[key as int]->0;
            &&& c.buffer == Some(p)
            &&& c.offset == m - x.site.address
            &&& claim_address(w, key as int) == m
            &&& w.open->0.write_offset == m - x.site.address + size
            &&& x.handles == 2
        }),
{
    lemma_retired(v);
    let x = w.buffers[w.open->0.buffer as int]->0;
    let o = opened_page(retired(v), w.open->0.buffer, x.bytes, x.site);
    lemma_one_multiple(x.site.address, align, m);
    assert(has_room(o, size, align)) by {
        assert(aligned_up(x.site.address + 0, align) == m);
    }
}

/// Where even a new page has no multiple of `align` with room behind it, a small chunk
/// gets zero bytes on the heap at a multiple of `align`, as long as there can be any.
/// The new page stays open and empty.
pub proof fn law_small_chunk_that_no_page_can_align_is_on_the_heap(
    v: ChunkPoolView,
    w: ChunkPoolView,
    size: nat,
    align: nat,
    account: nat,
    charge: nat,
    key: nat,
    m: nat,
)
    requires
        chunk_ok(v),
        is_pow2(align as int),
        allocated(v, w, size, align, account, charge, key),
        0 < size <= v.pages.page_size / 2,
        !has_room(v, size, align),
        m % align == 0,
        ({
            let start = w.buffers[w.open->0.buffer as int]->0.site.address;
            start <= m < start + align && m - start + size > v.pages.page_size
        }),
        size + align <= isize::MAX + 1,
    ensures
        w.open->0.write_offset == 0,
        w.buffers[w.open->0.buffer as int]->0.handles == 1,
        ({
            let c = w.claims[key as int]->0;
            let x = w.buffers[c.buffer->0 as int]->0;
            &&& c.buffer is Some
            &&& c.buffer != Some(w.open->0.buffer)
            &&& c.offset == 0
            &&& x.origin is Heap
            &&& x.handles == 1
            &&& x.bytes == zeros(size)
            &&& x.site.measured
            &&& claim_address(w, key as int) == x.site.address
            &&& x.site.address % align == 0
        }),
{
    lemma_retired(v);
    lemma_heap_align(align);
    let x = w.buffers[w.open->0.buffer as int]->0;
    let o = opened_page(retired(v), w.open->0.buffer, x.bytes, x.site);
    lemma_one_multiple(x.site.address, align, m);
    assert(!has_room(o, size, align)) by {
        assert(aligned_up(x.site.address + 0, align) == m);
    }
    assert(layout_fits(size, heap_align(align)));
    let b = w.claims[key as int]->0.buffer->0;
    assert(live(o.buffers, w.open->0.buffer as int));
    lemma_multiple_of_multiple(w.buffers[b as int]->0.site.address, heap_align(align), align);
}

/// Where nothing can be aligned like that, a small chunk that found no room starts
/// where the new page does.
pub proof fn law_small_chunk_that_nothing_can_align_starts_its_page(
    v: ChunkPoolView,
    w: ChunkPoolView,
    size: nat,
    align: nat,
    account: nat,
    charge: nat,
    key: nat,
    m: nat,
)
    requires
        chunk_ok(v),
        align > 0,
        allocated(v, w, size, align, account, charge, key),
        0 < size <= v.pages.page_size / 2,
        !has_room(v, size, align),
        m % align == 0,
        ({
            let start = w.buffers[w.open->0.buffer as int]->0.site.address;
            start <= m < start + align && m - start + size > v.pages.page_size
        }),
        size + align > isize::MAX + 1,
    ensures
        w.claims[key as int]->0.buffer == Some(w.open->0.buffer),
        w.claims[key as int]->0.offset == 0,
        w.open->0.write_offset == size,
        w.buffers[w.open->0.buffer as int]->0.handles == 2,
{
    lemma_retired(v);
    let x = w.buffers[w.open->0.buffer as int]->0;
    let o = opened_page(retired(v), w.open->0.buffer, x.bytes, x.site);
    lemma_one_multiple(x.site.address, align, m);
    assert(!has_room(o, size, align)) by {
        assert(aligned_up(x.site.address + 0, align) == m);
    }
}

/// A chunk of more than half a page takes the next page of the page pool for itself
/// and starts where the page does. The open page stays open, as it is.
pub proof fn law_large_chunk_has_a_page_to_itself(
    v: ChunkPoolView,
    w: ChunkPoolView,
    size: nat,
    align: nat,
    account: nat,
    charge: nat,
    key: nat,
    i: int,
)
    requires
        chunk_ok(v),
        allocated(v, w, size, align, account, charge, key),
        v.pages.page_size / 2 < size <= v.pages.page_size,
    ensures
        w.open == v.open,
        ({
            let c = w.claims[key as int]->0;
            let b = c.buffer->0;
            let x = w.buffers[b as int]->0;
            &&& c.buffer is Some
            &&& c.offset == 0
            &&& !live(v.buffers, b as int)
            &&& live(w.buffers, b as int)
            &&& w.pages == after_take(v.pages, x.site)
            &&& site_for(v.pages, x.site)
            &&& x.origin == Origin::Pool { serial: next_taken(v.pages) }
            &&& x.handles == 1
            &&& x.bytes.len() == v.pages.page_size
            &&& takes_fresh(v.pages) ==> x.bytes == zeros(v.pages.page_size)
            &&& claim_address(w, key as int) == x.site.address
            &&& live(v.buffers, i) ==> w.buffers[i] == v.buffers[i]
        }),
{
}

/// A chunk larger than a page gets exactly its size in zero bytes on the heap. The page
/// pool and the open page are left alone.
pub proof fn law_oversized_chunk_is_on_the_heap(
    v: ChunkPoolView,
    w: ChunkPoolView,
    size: nat,
    align: nat,
    account: nat,
    charge: nat,
    key: nat,
    i: int,
)
    requires
        chunk_ok(v),
        is_pow2(align as int),
        allocated(v, w, size, align, account, charge, key),
        size > v.pages.page_size,
    ensures
        w.open == v.open,
        w.pages == v.pages,
        ({
            let c = w.claims[key as int]->0;
            let b = c.buffer->0;
            let x = w.buffers[b as int]->0;
            &&& c.buffer is Some
            &&& c.offset == 0
            &&& !live(v.buffers, b as int)
            &&& live(w.buffers, b as int)
            &&& x.origin is Heap
            &&& x.handles == 1
            &&& x.bytes == zeros(size)
            &&& x.site.measured
            &&& claim_address(w, key as int) == x.site.address
            &&& x.site.address % align == 0
            &&& x.site.address % pointer_align() == 0
            &&& live(v.buffers, i) ==> w.buffers[i] == v.buffers[i]
        }),
{
    lemma_heap_align(align);
    let address = w.buffers[w.claims[key as int]->0.buffer->0 as int]->0.site.address;
    lemma_multiple_of_multiple(address, heap_align(align), align);
    lemma_pointer_divides(align);
    lemma_multiple_of_multiple(address, heap_align(align), pointer_align());
}

/// The size of a pointer divides every larger power of two.
proof fn lemma_pointer_divides(align: nat)
    requires
        is_pow2(align as int),
    ensures
        heap_align(align) % pointer_align() == 0,
{
    reveal_with_fuel(is_pow2, 5);
    assert(pointer_align() == 4 || pointer_align() == 8);
    assert(4nat % 4 == 0 && 8nat % 8 == 0);
}

/// The bytes of a chunk are those of its buffer from its offset on, as many as it has;
/// its content is the first of them, as many as it was sealed with; and it starts as
/// far behind its buffer as its offset says.
pub proof fn law_chunk_is_a_range_of_its_buffer(v: ChunkPoolView, k: int, i: int)
    requires
        chunk_ok(v),
        live(v.claims, k),
        v.claims[k]->0.buffer is Some,
    ensures
        ({
            let c = v.claims[k]->0;
            let x = v.buffers[c.buffer->0 as int]->0;
            &&& live(v.buffers, c.buffer->0 as int)
            &&& c.offset + c.capacity <= x.bytes.len()
            &&& c.len <= c.capacity
            &&& claim_bytes(v, k).len() == c.capacity
            &&& 0 <= i < c.capacity ==> claim_bytes(v, k)[i] == x.bytes[c.offset + i]
            &&& chunk_content(v, k).len() == c.len
            &&& 0 <= i < c.len ==> chunk_content(v, k)[i] == x.bytes[c.offset + i]
            &&& claim_address(v, k) == x.site.address + c.offset
        }),
{
    assert(claim_ok(v.pages.page_size, v.buffers, v.claims[k]->0));
}

/// The address of every chunk is that of its memory: the address of its buffer was
/// read off the buffer, be it a page of the pool or a heap allocation.
pub proof fn law_addresses_of_chunks_were_read_off_their_memory(v: ChunkPoolView, k: int)
    requires
        chunk_ok(v),
        live(v.claims, k),
        v.claims[k]->0.buffer is Some,
    ensures
        v.buffers[v.claims[k]->0.buffer->0 as int]->0.site.measured,
{
    let b = v.claims[k]->0.buffer->0 as int;
    assert(claim_ok(v.pages.page_size, v.buffers, v.claims[k]->0));
    assert(live(v.buffers, b));
    assert(buffer_ok(v.pages, v.buffers[b]->0));
}

/// No two chunks share a byte of a buffer.
pub proof fn law_no_byte_is_in_two_chunks(v: ChunkPoolView, j: int, k: int, i: int)
    requires
        chunk_ok(v),
        live(v.claims, j),
        live(v.claims, k),
        j != k,
        v.claims[j]->0.buffer is Some,
        v.claims[j]->0.buffer == v.claims[k]->0.buffer,
    ensures
        !(v.claims[j]->0.offset <= i < v.claims[j]->0.offset + v.claims[j]->0.capacity
            && v.claims[k]->0.offset <= i < v.claims[k]->0.offset + v.claims[k]->0.capacity),
{
    assert(apart(v.claims[j]->0, v.claims[k]->0));
}

/// Writing to a chunk changes the bytes of its range to what is written, and no other
/// byte of its buffer. No other buffer, no claim, no page and no counter changes.
pub proof fn law_writing_changes_the_range_of_the_chunk(
    v: ChunkPoolView,
    key: nat,
    data: Seq<u8>,
    b: int,
    i: int,
)
    requires
        chunk_ok(v),
        live(v.claims, key as int),
        data.len() == v.claims[key as int]->0.capacity,
        live(v.buffers, b),
        0 <= i < v.buffers[b]->0.bytes.len(),
    ensures
        ({
            let c = v.claims[key as int]->0;
            let w = with_bytes(v, key, data);
            let x = v.buffers[b]->0;
            let y = w.buffers[b]->0;
            &&& w.claims == v.claims
            &&& w.pages == v.pages
            &&& w.open == v.open
            &&& w.counters == v.counters
            &&& w.buffers.len() == v.buffers.len()
            &&& live(w.buffers, b)
            &&& y.bytes.len() == x.bytes.len()
            &&& y.site == x.site
            &&& y.origin == x.origin
            &&& y.handles == x.handles
            &&& c.buffer != Some(b as nat) ==> y.bytes == x.bytes
            &&& c.buffer == Some(b as nat) && c.offset <= i < c.offset + c.capacity ==> y.bytes[i]
                == data[i - c.offset]
            &&& i < c.offset || c.offset + c.capacity <= i ==> y.bytes[i] == x.bytes[i]
        }),
{
    assert(claim_ok(v.pages.page_size, v.buffers, v.claims[key as int]->0));
}

/// Sealing fixes the length of the content and nothing else of the chunk. Nothing else
/// of the pool changes.
pub proof fn law_sealing_fixes_the_length(v: ChunkPoolView, key: nat, len: nat, i: int)
    requires
        live(v.claims, key as int),
    ensures
        ({
            let c = v.claims[key as int]->0;
            let w = with_seal(v, key, len);
            let d = w.claims[key as int]->0;
            &&& live(w.claims, key as int)
            &&& d.sealed
            &&& d.len == len
            &&& d.buffer == c.buffer
            &&& d.offset == c.offset
            &&& d.capacity == c.capacity
            &&& d.oversized == c.oversized
            &&& d.account == c.account
            &&& d.charge == c.charge
            &&& d.handles == c.handles
            &&& w.claims.len() == v.claims.len()
            &&& 0 <= i < v.claims.len() && i != key ==> w.claims[i] == v.claims[i]
            &&& w.buffers == v.buffers
            &&& w.pages == v.pages
            &&& w.open == v.open
            &&& w.counters == v.counters
        }),
{
}

/// Cloning a chunk raises its number of handles by exactly one, and changes nothing
/// else.
pub proof fn law_cloning_a_chunk_adds_one_handle(v: ChunkPoolView, key: nat, i: int)
    requires
        live(v.claims, key as int),
    ensures
        ({
            let c = v.claims[key as int]->0;
            let w = with_chunk_handle(v, key);
            let d = w.claims[key as int]->0;
            &&& live(w.claims, key as int)
            &&& d.handles == c.handles + 1
            &&& d.buffer == c.buffer
            &&& d.offset == c.offset
            &&& d.capacity == c.capacity
            &&& d.len == c.len
            &&& d.sealed == c.sealed
            &&& d.oversized == c.oversized
            &&& d.account == c.account
            &&& d.charge == c.charge
            &&& w.claims.len() == v.claims.len()
            &&& 0 <= i < v.claims.len() && i != key ==> w.claims[i] == v.claims[i]
            &&& w.buffers == v.buffers
            &&& w.pages == v.pages
            &&& w.open == v.open
            &&& w.counters == v.counters
        }),
{
}

/// Giving up a handle that is not the last lowers the number of handles by exactly
/// one, and changes nothing else.
pub proof fn law_giving_up_a_chunk_handle_takes_one_off(v: ChunkPoolView, key: nat, i: int)
    requires
        live(v.claims, key as int),
        v.claims[key as int]->0.handles > 1,
    ensures
        ({
            let c = v.claims[key as int]->0;
            let w = after_chunk_release(v, key);
            let d = w.claims[key as int]->0;
            &&& live(w.claims, key as int)
            &&& d.handles == c.handles - 1
            &&& d.buffer == c.buffer
            &&& d.offset == c.offset
            &&& d.capacity == c.capacity
            &&& d.len == c.len
            &&& d.sealed == c.sealed
            &&& d.oversized == c.oversized
            &&& d.account == c.account
            &&& d.charge == c.charge
            &&& w.claims.len() == v.claims.len()
            &&& 0 <= i < v.claims.len() && i != key ==> w.claims[i] == v.claims[i]
            &&& w.buffers == v.buffers
            &&& w.pages == v.pages
            &&& w.open == v.open
            &&& w.counters == v.counters
        }),
{
}

/// With the last handle the chunk leaves the table and is counted as no longer in use.
/// Its buffer is needed by one less; where nothing else needs it, a page goes back to
/// the page pool and a heap allocation to the heap. The numbers of chunks allocated so
/// far stay.
pub proof fn law_last_chunk_handle_gives_up_the_chunk(v: ChunkPoolView, key: nat, i: int)
    requires
        chunk_ok(v),
        live(v.claims, key as int),
        v.claims[key as int]->0.handles == 1,
    ensures
        ({
            let c = v.claims[key as int]->0;
            let w = after_chunk_release(v, key);
            &&& !live(w.claims, key as int)
            &&& w.claims.len() == v.claims.len()
            &&& 0 <= i < v.claims.len() && i != key ==> w.claims[i] == v.claims[i]
            &&& w.counters.chunks_in_use == wrap64(v.counters.chunks_in_use - 1)
            &&& c.capacity > v.pages.page_size ==> w.counters.oversized_bytes_in_use == wrap64(
                v.counters.oversized_bytes_in_use - c.capacity,
            )
            &&& c.capacity <= v.pages.page_size ==> w.counters.oversized_bytes_in_use
                == v.counters.oversized_bytes_in_use
            &&& w.counters.total_chunks == v.counters.total_chunks
            &&& w.counters.packed_allocations == v.counters.packed_allocations
            &&& w.counters.dedicated_allocations == v.counters.dedicated_allocations
            &&& w.counters.oversized_allocations == v.counters.oversized_allocations
            &&& w.open == v.open
            &&& c.buffer is None ==> w.buffers == v.buffers && w.pages == v.pages
            &&& c.buffer is Some ==> {
                let b = c.buffer->0 as int;
                let x = v.buffers[b]->0;
                let y = w.buffers[b]->0;
                &&& w.buffers.len() == v.buffers.len()
                &&& 0 <= i < v.buffers.len() && i != b ==> w.buffers[i] == v.buffers[i]
                &&& x.handles > 1 ==> {
                    &&& live(w.buffers, b)
                    &&& y.handles == x.handles - 1
                    &&& y.bytes == x.bytes
                    &&& y.site == x.site
                    &&& y.origin == x.origin
                    &&& w.pages == v.pages
                }
                &&& x.handles == 1 ==> !live(w.buffers, b)
                &&& x.handles == 1 && x.origin is Pool ==> w.pages == after_return(
                    v.pages,
                    x.origin->serial,
                )
                &&& x.handles == 1 && x.origin is Heap ==> w.pages == v.pages
            }
        }),
{
    let c = v.claims[key as int]->0;
    assert(claim_ok(v.pages.page_size, v.buffers, c));
    law_counter_moves_by_what_is_counted(v.counters.oversized_bytes_in_use, 0);
    if c.buffer is Some {
        assert(live(v.buffers, c.buffer->0 as int));
    }
}

/// A buffer is needed by the chunks that stand on it, and once more while it is the
/// open page.
pub proof fn law_buffer_is_needed_by_its_chunks(v: ChunkPoolView, b: int)
    requires
        chunk_ok(v),
        live(v.buffers, b),
    ensures
        v.buffers[b]->0.handles == tally(
            v.claims,
            |c: Option<ClaimView>|
                if c is Some && c->0.buffer == Some(b as nat) {
                    1
                } else {
                    0
                },
        ) + if v.open is Some && v.open->0.buffer == b {
            1nat
        } else {
            0
        },
        v.buffers[b]->0.handles >= 1,
{
    crate::tally::lemma_tally_agree(
        v.claims,
        on(b as nat),
        |c: Option<ClaimView>|
            if c is Some && c->0.buffer == Some(b as nat) {
                1
            } else {
                0
            },
    );
}

/// When the owner of a chunk pool is gone, the open page is given up and the pages on
/// the owner's list are released. The chunks stay.
pub proof fn law_closing_keeps_chunks_and_counters(v: ChunkPoolView)
    requires
        chunk_ok(v),
    ensures
        ({
            let r = retired(v);
            let w = after_chunk_close(v);
            &&& w.open is None
            &&& w.claims == v.claims
            &&& w.counters == v.counters
            &&& w.buffers == r.buffers
            &&& w.pages.closed
            &&& w.pages.log.released == r.pages.log.released + r.pages.owned.len()
            &&& w.pages.log.allocated == v.pages.log.allocated
            &&& w.pages.returned == r.pages.returned
            &&& w.pages.frames == r.pages.frames
            &&& w.pages.counters == r.pages.counters
        }),
{
    lemma_retired(v);
}

/// A builder is one of a pool's exactly if it is the one handle to a chunk of it that
/// is not sealed, shows its size, and has its content within the chunk.
pub proof fn law_builder_shows_its_chunk(b: &ChunkBuilder, v: ChunkPoolView)
    ensures
        b.in_pool(v) <==> {
            &&& live(v.claims, b.key() as int)
            &&& !v.claims[b.key() as int]->0.sealed
            &&& v.claims[b.key() as int]->0.handles == 1
            &&& b.spec_capacity() == v.claims[b.key() as int]->0.capacity
            &&& b.spec_len() <= b.spec_capacity()
        },
{
}

/// A handle is one of a pool's exactly if it names a sealed chunk of it, and shows its
/// size and the length of its content.
pub proof fn law_chunk_handle_shows_its_chunk(chunk: &Chunk, v: ChunkPoolView)
    ensures
        chunk.in_pool(v) <==> {
            &&& live(v.claims, chunk.key() as int)
            &&& v.claims[chunk.key() as int]->0.sealed
            &&& chunk.spec_capacity() == v.claims[chunk.key() as int]->0.capacity
            &&& chunk.spec_len() == v.claims[chunk.key() as int]->0.len
        },
{
}

/// Where the other chunks are kept, each of them is there as it was, byte for byte.
/// Where a chunk is alone, its range overlaps no other.
pub proof fn law_kept_chunks_are_the_same(
    v: ChunkPoolView,
    w: ChunkPoolView,
    key: nat,
    k: int,
)
    requires
        others_kept(v, w, key),
        alone(w, key),
        live(v.claims, k),
        k != key,
    ensures
        live(w.claims, k),
        w.claims[k] == v.claims[k],
        claim_bytes(w, k) == claim_bytes(v, k),
        ({
            let c = w.claims[key as int]->0;
            let d = w.claims[k]->0;
            c.buffer is Some && c.buffer == d.buffer ==> c.offset + c.capacity <= d.offset
                || d.offset + d.capacity <= c.offset
        }),
{
}

} // verus!
