//! Where pages come from.
use vstd::prelude::*;

use crate::memory::{AlignedBuf, PageBuf};
#[allow(unused_imports)]
use crate::memory::{layout_fits, zeros};

verus! {

/// The number of bytes in a pointer. No page is smaller.
pub const POINTER_SIZE: usize = usize::BITS as usize / 8;

/// What every heap page is aligned to.
pub const HEAP_PAGE_ALIGN: usize = 8;

/// What a heap page is aligned to where the allocator can do it: a cache line.
pub const CACHE_LINE: usize = 64;

/// What has been asked of a source so far.
pub struct SourceLog {
    pub allocated: nat,
    pub released: nat,
    pub prefaulted: nat,
}

/// The backing-memory strategy of a page pool.
///
/// A source produces and releases pages of one fixed size. The pool calls
/// `allocate` when its free lists are empty, `prefault` when it is prewarmed, and
/// `release` once for each page when it is closed.
pub trait PageSource: Sized {
    /// A page of memory, owned.
    type Buf: PageBuf;

    /// The size in bytes of each page. A source that is not verified itself leaves
    /// this open.
    open spec fn spec_page_size(&self) -> nat {
        arbitrary()
    }

    /// What the address of each page is a multiple of. A source that is not
    /// verified itself leaves this open.
    open spec fn page_align(&self) -> nat {
        arbitrary()
    }

    /// What has been asked of this source so far. A source that is not verified
    /// itself leaves this open.
    open spec fn log(&self) -> SourceLog {
        arbitrary()
    }

    /// The size in bytes of each page this source produces. No memory is larger
    /// than `isize::MAX` bytes, and a page can hold a pointer at its start.
    fn page_size(&self) -> (n: usize)
        ensures
            n == self.spec_page_size() <= isize::MAX,
            self.page_align() > 0,
            self.page_align() % (POINTER_SIZE as nat) == 0,
    ;

    /// Allocates one zero-initialized page.
    fn allocate(&mut self) -> (buf: Self::Buf)
        ensures
            buf.bytes() == zeros(old(self).spec_page_size()),
            buf.address() % old(self).page_align() == 0,
            buf.measured(),
            buf.prefaults() == 0,
            final(self).spec_page_size() == old(self).spec_page_size(),
            final(self).page_align() == old(self).page_align(),
            final(self).log() == (SourceLog {
                allocated: old(self).log().allocated + 1,
                ..old(self).log()
            }),
    ;

    /// Releases a page that [`allocate`](Self::allocate) returned.
    fn release(&mut self, buf: Self::Buf)
        requires
            buf.bytes().len() == old(self).spec_page_size(),
        ensures
            final(self).spec_page_size() == old(self).spec_page_size(),
            final(self).page_align() == old(self).page_align(),
            final(self).log() == (SourceLog {
                released: old(self).log().released + 1,
                ..old(self).log()
            }),
    ;

    /// Touches every operating-system page within `buf`, so that physical
    /// backing is committed. The page stays valid; what it holds is left open.
    fn prefault(&mut self, buf: &mut Self::Buf)
        requires
            old(buf).bytes().len() == old(self).spec_page_size(),
        ensures
            final(buf).bytes().len() == old(buf).bytes().len(),
            final(buf).address() == old(buf).address(),
            final(buf).measured() == old(buf).measured(),
            final(buf).prefaults() == old(buf).prefaults() + 1,
            final(self).spec_page_size() == old(self).spec_page_size(),
            final(self).page_align() == old(self).page_align(),
            final(self).log() == (SourceLog {
                prefaulted: old(self).log().prefaulted + 1,
                ..old(self).log()
            }),
    ;
}

/// Whether the global allocator can produce pages of `page_size` bytes that have
/// room for a pointer.
pub open spec fn heap_page_size(page_size: usize) -> bool {
    page_size >= POINTER_SIZE && layout_fits(page_size as nat, HEAP_PAGE_ALIGN as nat)
}

/// What heap pages of `page_size` bytes are aligned to.
pub open spec fn heap_page_align(page_size: nat) -> nat {
    if layout_fits(page_size, CACHE_LINE as nat) {
        CACHE_LINE as nat
    } else {
        HEAP_PAGE_ALIGN as nat
    }
}

/// Pages from the global allocator. This is the default source.
pub struct HeapSource {
    page_size: usize,
    log: Ghost<SourceLog>,
}

impl HeapSource {
    /// The global allocator can produce the pages.
    #[verifier::type_invariant]
    spec fn inv(self) -> bool {
        heap_page_size(self.page_size)
    }

    /// A source of `page_size`-byte pages.
    pub fn new(page_size: usize) -> (source: Self)
        requires
            heap_page_size(page_size),
        ensures
            source.spec_page_size() == page_size,
            source.page_align() == heap_page_align(page_size as nat),
            source.log() == (SourceLog { allocated: 0, released: 0, prefaulted: 0 }),
    {
        HeapSource {
            page_size,
            log: Ghost(SourceLog { allocated: 0, released: 0, prefaulted: 0 }),
        }
    }
}

impl PageSource for HeapSource {
    type Buf = AlignedBuf;

    closed spec fn spec_page_size(&self) -> nat {
        self.page_size as nat
    }

    closed spec fn page_align(&self) -> nat {
        heap_page_align(self.page_size as nat)
    }

    closed spec fn log(&self) -> SourceLog {
        self.log@
    }

    fn page_size(&self) -> (n: usize) {
        proof {
            use_type_invariant(self);
            assert(POINTER_SIZE == 4 || POINTER_SIZE == 8);
        }
        self.page_size
    }

    fn allocate(&mut self) -> (buf: AlignedBuf) {
        proof {
            use_type_invariant(&*self);
        }
        self.log = Ghost(SourceLog { allocated: self.log@.allocated + 1, ..self.log@ });
        let align: usize = if self.page_size <= isize::MAX as usize - (CACHE_LINE - 1) {
            CACHE_LINE
        } else {
            HEAP_PAGE_ALIGN
        };
        AlignedBuf::new(self.page_size, align)
    }

    fn release(&mut self, buf: AlignedBuf) {
        proof {
            use_type_invariant(&*self);
        }
        self.log = Ghost(SourceLog { released: self.log@.released + 1, ..self.log@ });
    }

    /// Nothing is left to do: the global allocator has committed the memory and
    /// zeroed it.
    fn prefault(&mut self, buf: &mut AlignedBuf) {
        proof {
            use_type_invariant(&*self);
        }
        self.log = Ghost(SourceLog { prefaulted: self.log@.prefaulted + 1, ..self.log@ });
        buf.note_prefault();
    }
}

} // verus!
