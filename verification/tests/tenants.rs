//! Tenants, their counters, and the ledger.
use paged_alloc::{ChunkPool, Ledger, PagePool, Tenant, TenantId, TenantStats};

#[test]
fn tenant_clone_shares_stats() {
    let mut ledger = Ledger::new();
    let mut pool = PagePool::new(64);
    let tenant = Tenant::new(&mut ledger, "t");
    let tenant_clone = tenant.clone();

    let _p = pool.allocate(&mut ledger, &tenant).seal(pool.shared_mut());
    assert_eq!(tenant.stats(&ledger).pages_in_use(), 1);
    assert_eq!(tenant_clone.stats(&ledger).pages_in_use(), 1);
    assert_eq!(tenant.id().as_str(), "t");
    assert_eq!(tenant_clone.id().as_str(), "t");
}

#[test]
fn tenants_of_one_name_have_accounts_of_their_own() {
    let mut ledger = Ledger::new();
    let mut pool = ChunkPool::new();
    let a = Tenant::new(&mut ledger, "same");
    let b = Tenant::new(&mut ledger, String::from("same"));
    assert!(a.id() == b.id());
    let _c = pool.alloc_from(&mut ledger, &a, b"12345");
    assert_eq!(a.stats(&ledger).bytes_in_use(), 5);
    assert_eq!(b.stats(&ledger).bytes_in_use(), 0);
    assert_eq!(b.stats(&ledger).total_chunks_allocated(), 0);
}

#[test]
fn tenant_ids_compare_by_text() {
    let a = TenantId::from("cache");
    let b = TenantId::from(String::from("cache"));
    let c = TenantId::from("log");
    assert!(a == b);
    assert!(a != c);
    assert_eq!(a.clone().as_str(), "cache");
    assert_eq!(c.as_str(), "log");
}

#[test]
fn stats_count_each_unit_apart() {
    let mut stats = TenantStats::default();
    stats.record_allocate(100);
    stats.record_chunk_allocate(30);
    assert_eq!(stats.bytes_in_use(), 130);
    assert_eq!(stats.pages_in_use(), 1);
    assert_eq!(stats.chunks_in_use(), 1);
    stats.record_release(100);
    stats.record_chunk_allocate(20);
    assert_eq!(stats.bytes_in_use(), 50);
    assert_eq!(stats.peak_bytes_in_use(), 130);
    assert_eq!(stats.pages_in_use(), 0);
    assert_eq!(stats.total_pages_allocated(), 1);
    assert_eq!(stats.chunks_in_use(), 2);
    assert_eq!(stats.total_chunks_allocated(), 2);
    stats.record_chunk_release(30);
    stats.record_chunk_release(20);
    assert_eq!(stats.bytes_in_use(), 0);
    assert_eq!(stats.chunks_in_use(), 0);
    assert_eq!(stats.total_chunks_allocated(), 2);
    assert_eq!(stats.peak_bytes_in_use(), 130);
}

#[test]
fn one_account_over_two_pools() {
    let mut ledger = Ledger::new();
    let mut small = PagePool::new(64);
    let mut large = PagePool::new(256);
    let tenant = Tenant::new(&mut ledger, "t");
    let a = small.allocate(&mut ledger, &tenant).seal(small.shared_mut());
    let b = large.allocate(&mut ledger, &tenant).seal(large.shared_mut());
    assert_eq!(tenant.stats(&ledger).bytes_in_use(), 320);
    a.release(small.shared_mut(), &mut ledger);
    assert_eq!(tenant.stats(&ledger).bytes_in_use(), 256);
    b.release(large.shared_mut(), &mut ledger);
    assert_eq!(tenant.stats(&ledger).bytes_in_use(), 0);
    assert_eq!(tenant.stats(&ledger).peak_bytes_in_use(), 320);
}

#[test]
fn the_peak_is_the_most_ever_held() {
    let mut ledger = Ledger::new();
    let mut pages = PagePool::new(64);
    let mut chunks = ChunkPool::with_page_size(128);
    let tenant = Tenant::new(&mut ledger, "t");
    let mut held = vec![tenant.stats(&ledger).bytes_in_use()];
    for size in [3, 300, 0, 128, 40] {
        let page = pages.allocate(&mut ledger, &tenant);
        held.push(tenant.stats(&ledger).bytes_in_use());
        let chunk = chunks.allocate(&mut ledger, &tenant, size);
        held.push(tenant.stats(&ledger).bytes_in_use());
        page.release(pages.shared_mut(), &mut ledger);
        held.push(tenant.stats(&ledger).bytes_in_use());
        assert_eq!(tenant.stats(&ledger).peak_bytes_in_use(), *held.iter().max().unwrap());
        chunk.release(&mut chunks, &mut ledger);
        held.push(tenant.stats(&ledger).bytes_in_use());
        assert_eq!(tenant.stats(&ledger).peak_bytes_in_use(), *held.iter().max().unwrap());
    }
    assert_eq!(tenant.stats(&ledger).peak_bytes_in_use(), 364);
    assert_eq!(tenant.stats(&ledger).bytes_in_use(), 0);
}
