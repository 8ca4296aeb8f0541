//! Memory mapped from the operating system: what to ask for, and what to make of
//! the answers.
//!
//! The calls themselves are made elsewhere. A source here says which mapping a
//! page needs, whether an answer is a page, and where a page has to be touched
//! for its memory to be committed.
use vstd::prelude::*;

use crate::source::POINTER_SIZE;
use crate::text::decimal_text;
#[allow(unused_imports)]
use crate::text::decimal;

verus! {

/// The page size that is assumed when the operating system does not tell.
pub const FALLBACK_OS_PAGE: usize = 4096;

/// The operating system's constants for memory mappings.
#[derive(Debug, Clone, Copy)]
pub struct MapFlags {
    pub prot_read: i32,
    pub prot_write: i32,
    pub map_anonymous: i32,
    pub map_private: i32,
    pub map_hugetlb: i32,
}

/// A mapping to be asked for: without a file, at any address.
#[derive(Debug, Clone, Copy, PartialEq, Eq, Structural)]
pub struct MapRequest {
    pub len: usize,
    pub prot: i32,
    pub flags: i32,
}

/// The operating system's page size, from what it gave for it: no number that is
/// not positive is one.
pub fn os_page_size(reported: i64) -> (n: usize)
    requires
        reported <= isize::MAX,
    ensures
        n == if reported <= 0 {
            FALLBACK_OS_PAGE as int
        } else {
            reported as int
        },
        n > 0,
{
    if reported <= 0 {
        FALLBACK_OS_PAGE
    } else {
        reported as usize
    }
}

/// What giving back the memory behind a page came to, from the code that the
/// operating system returned and the error number it left.
pub fn advice_outcome(code: i32, os_error: i32) -> (r: Result<(), i32>)
    ensures
        code == 0 ==> r == Ok::<(), i32>(()),
        code != 0 ==> r == Err::<(), i32>(os_error),
{
    if code != 0 {
        return Err(os_error);
    }
    Ok(())
}

/// Anonymous private mappings of a fixed size.
#[derive(Debug)]
pub struct MmapSource {
    page_size: usize,
    os_page: usize,
}

impl MmapSource {
    /// The size of a page.
    pub closed spec fn spec_page_size(&self) -> nat {
        self.page_size as nat
    }

    /// The size of the operating system's pages.
    pub closed spec fn spec_os_page(&self) -> nat {
        self.os_page as nat
    }

    /// A page has room for a pointer and is made of whole pages of the operating
    /// system.
    pub open spec fn wf(&self) -> bool {
        &&& POINTER_SIZE <= self.spec_page_size() <= usize::MAX
        &&& 0 < self.spec_os_page()
        &&& self.spec_page_size() % self.spec_os_page() == 0
    }

    /// A source of pages of `page_size` bytes, where the operating system's pages
    /// have `os_page` bytes.
    pub fn new(page_size: usize, os_page: usize) -> (source: Self)
        requires
            page_size >= POINTER_SIZE,
            os_page > 0,
            page_size % os_page == 0,
        ensures
            source.wf(),
            source.spec_page_size() == page_size,
            source.spec_os_page() == os_page,
    {
        MmapSource { page_size, os_page }
    }

    /// The size of a page.
    pub fn page_size(&self) -> (n: usize)
        ensures
            n == self.spec_page_size(),
    {
        self.page_size
    }

    /// The mapping that a page needs: readable and writable, anonymous and private.
    pub fn map_request(&self, os: &MapFlags) -> (r: MapRequest)
        ensures
            r.len == self.spec_page_size(),
            r.prot == os.prot_read | os.prot_write,
            r.flags == os.map_anonymous | os.map_private,
    {
        MapRequest {
            len: self.page_size,
            prot: os.prot_read | os.prot_write,
            flags: os.map_anonymous | os.map_private,
        }
    }

    /// The address of the page, from the address that the mapping call returned:
    /// `failed` is the one that says that there is no mapping. The error is the
    /// message to stop with.
    pub fn mapped(&self, address: usize, failed: usize, os_error: &str) -> (r: Result<
        usize,
        String,
    >)
        ensures
            r is Ok <==> address != failed,
            r is Ok ==> r->Ok_0 == address,
            r is Err ==> r->Err_0@ == "mmap failed for "@ + decimal(self.spec_page_size())
                + " bytes: "@ + os_error@,
    {
        if address == failed {
            let mut message = "mmap failed for ".to_owned();
            message.append(decimal_text(self.page_size).as_str());
            message.append(" bytes: ");
            message.append(os_error);
            return Err(message);
        }
        Ok(address)
    }

    /// Where a page has to be touched for its memory to be committed: once in each
    /// of the operating system's pages.
    pub fn touch_points(&self) -> (points: Vec<usize>)
        requires
            self.wf(),
        ensures
            points@.len() * self.spec_os_page() == self.spec_page_size(),
            forall|i: int|
                0 <= i < points@.len() ==> (#[trigger] points@[i]) == i * self.spec_os_page(),
    {
        let mut points: Vec<usize> = Vec::new();
        let mut offset: usize = 0;
        let ghost total = self.page_size as int / self.os_page as int;
        proof {
            vstd::arithmetic::div_mod::lemma_fundamental_div_mod(
                self.page_size as int,
                self.os_page as int,
            );
            assert(0 * self.os_page == 0);
        }
        while offset < self.page_size
            invariant
                self.os_page > 0,
                self.page_size == self.os_page * total,
                offset == points@.len() * self.os_page,
                points@.len() <= total,
                forall|i: int|
                    0 <= i < points@.len() ==> (#[trigger] points@[i]) == i * self.os_page,
            decreases total - points@.len(),
        {
            let ghost n = points@.len() as int;
            let ghost os = self.os_page as int;
            proof {
                assert(n < total) by (nonlinear_arith)
                    requires
                        n * os < os * total,
                        os > 0,
                ;
                assert((n + 1) * os == n * os + os) by (nonlinear_arith);
                assert((n + 1) * os <= os * total) by (nonlinear_arith)
                    requires
                        n + 1 <= total,
                        os > 0,
                ;
            }
            points.push(offset);
            offset = offset + self.os_page;
        }
        proof {
            let n = points@.len() as int;
            let os = self.os_page as int;
            assert(n == total) by (nonlinear_arith)
                requires
                    n * os >= os * total,
                    n <= total,
                    os > 0,
            ;
            assert(n * os == os * total) by (nonlinear_arith)
                requires
                    n == total,
            ;
        }
        points
    }
}

/// The bit at which a mapping's flags hold the binary logarithm of the huge-page
/// size.
pub const MAP_HUGE_SHIFT: i32 = 26;

/// Mappings of one explicit huge page.
#[derive(Debug)]
pub struct HugePageSource {
    page_size: usize,
    log2_huge_size: i32,
}

impl HugePageSource {
    /// Huge pages of 2 MiB.
    pub const SIZE_2MIB: usize = 2 * 1024 * 1024;

    /// Huge pages of 1 GiB.
    pub const SIZE_1GIB: usize = 1024 * 1024 * 1024;

    /// The size of a page.
    pub closed spec fn spec_page_size(&self) -> nat {
        self.page_size as nat
    }

    /// The binary logarithm of the page size.
    pub closed spec fn log2(&self) -> i32 {
        self.log2_huge_size
    }

    /// The page size is a huge-page size, and the logarithm is that of the page
    /// size.
    pub open spec fn wf(&self) -> bool {
        ||| self.spec_page_size() == Self::SIZE_2MIB && self.log2() == 21
        ||| self.spec_page_size() == Self::SIZE_1GIB && self.log2() == 30
    }

    /// A source of huge pages of `page_size` bytes.
    pub fn new(page_size: usize) -> (source: Self)
        requires
            page_size == Self::SIZE_2MIB || page_size == Self::SIZE_1GIB,
        ensures
            source.wf(),
            source.spec_page_size() == page_size,
    {
        let log2_huge_size: i32 = if page_size == Self::SIZE_2MIB {
            21
        } else {
            30
        };
        HugePageSource { page_size, log2_huge_size }
    }

    /// The size of a page.
    pub fn page_size(&self) -> (n: usize)
        ensures
            n == self.spec_page_size(),
    {
        self.page_size
    }

    /// The mapping that a page needs: as for [`MmapSource`], of huge pages, with
    /// the logarithm of their size in the top bits of the flags.
    pub fn map_request(&self, os: &MapFlags) -> (r: MapRequest)
        ensures
            r.len == self.spec_page_size(),
            r.prot == os.prot_read | os.prot_write,
            r.flags == os.map_anonymous | os.map_private | os.map_hugetlb | (self.log2()
                << MAP_HUGE_SHIFT),
    {
        MapRequest {
            len: self.page_size,
            prot: os.prot_read | os.prot_write,
            flags: os.map_anonymous | os.map_private | os.map_hugetlb | (self.log2_huge_size
                << MAP_HUGE_SHIFT),
        }
    }

    /// The address of the page, from the address that the mapping call returned:
    /// `failed` is the one that says that there is no mapping. The error is the
    /// message to stop with.
    pub fn mapped(&self, address: usize, failed: usize, os_error: &str) -> (r: Result<
        usize,
        String,
    >)
        ensures
            r is Ok <==> address != failed,
            r is Ok ==> r->Ok_0 == address,
            r is Err ==> r->Err_0@ == "mmap(MAP_HUGETLB) failed for "@ + decimal(
                self.spec_page_size(),
            ) + " bytes: "@ + os_error@ + " — check vm.nr_hugepages and the huge-page pool"@,
    {
        if address == failed {
            let mut message = "mmap(MAP_HUGETLB) failed for ".to_owned();
            message.append(decimal_text(self.page_size).as_str());
            message.append(" bytes: ");
            message.append(os_error);
            message.append(" — check vm.nr_hugepages and the huge-page pool");
            return Err(message);
        }
        Ok(address)
    }

    /// Where a page has to be touched for its memory to be committed: once, since
    /// it is one huge page.
    pub fn touch_points(&self) -> (points: Vec<usize>)
        ensures
            points@ == seq![0usize],
    {
        let points: Vec<usize> = vec![0];
        assert(points@ =~= seq![0usize]);
        points
    }
}

} // verus!
