//! What to ask the operating system for, and what to make of its answers.
use paged_alloc::mmap::{advice_outcome, os_page_size, MapFlags, MapRequest};
use paged_alloc::{HugePageSource, MmapSource};

fn flags() -> MapFlags {
    MapFlags {
        prot_read: 1,
        prot_write: 2,
        map_anonymous: 0x20,
        map_private: 0x02,
        map_hugetlb: 0x40000,
    }
}

#[test]
fn os_page_size_falls_back() {
    assert_eq!(os_page_size(16384), 16384);
    assert_eq!(os_page_size(0), 4096);
    assert_eq!(os_page_size(-1), 4096);
}

#[test]
fn a_page_is_mapped_anonymous_and_private() {
    let source = MmapSource::new(16 * 1024, 4096);
    assert_eq!(source.page_size(), 16 * 1024);
    assert_eq!(
        source.map_request(&flags()),
        MapRequest { len: 16 * 1024, prot: 3, flags: 0x22 }
    );
}

#[test]
fn every_os_page_is_touched() {
    let source = MmapSource::new(16 * 1024, 4096);
    assert_eq!(source.touch_points(), vec![0, 4096, 8192, 12288]);
    assert_eq!(MmapSource::new(4096, 4096).touch_points(), vec![0]);
}

#[test]
fn a_failed_mapping_is_told_from_a_page() {
    let source = MmapSource::new(4096, 4096);
    assert_eq!(source.mapped(0x7000, usize::MAX, ""), Ok(0x7000));
    assert_eq!(
        source.mapped(usize::MAX, usize::MAX, "out of memory"),
        Err(String::from("mmap failed for 4096 bytes: out of memory"))
    );
}

#[test]
fn huge_pages_name_their_size() {
    let source = HugePageSource::new(HugePageSource::SIZE_2MIB);
    assert_eq!(source.page_size(), 2 * 1024 * 1024);
    assert_eq!(
        source.map_request(&flags()),
        MapRequest { len: 2 * 1024 * 1024, prot: 3, flags: 0x40022 | (21 << 26) }
    );
    assert_eq!(source.touch_points(), vec![0]);

    let source = HugePageSource::new(HugePageSource::SIZE_1GIB);
    assert_eq!(source.map_request(&flags()).flags, 0x40022 | (30 << 26));
    assert_eq!(source.mapped(1, usize::MAX, ""), Ok(1));
    assert_eq!(
        source.mapped(usize::MAX, usize::MAX, "none"),
        Err(String::from(
            "mmap(MAP_HUGETLB) failed for 1073741824 bytes: none — check vm.nr_hugepages and the huge-page pool"
        ))
    );
}

#[test]
fn advice_fails_with_the_os_error() {
    assert_eq!(advice_outcome(0, 22), Ok(()));
    assert_eq!(advice_outcome(-1, 22), Err(22));
}
