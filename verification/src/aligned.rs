//! Memory that starts at a multiple of a given alignment.
use vstd::prelude::*;

use crate::memory::{address_of, window_mut, zeroed, Block, PageBuf};
#[allow(unused_imports)]
use crate::memory::{layout_fits, zeros};

verus! {

/// Zero-initialized memory from the global allocator that starts at a multiple of
/// a given alignment: what is left of an allocation without its first `skipped`
/// bytes. The allocation is never grown, so it stays where it is.
pub struct AlignedBuf {
    block: Block,
    skipped: usize,
    address: usize,
    prefaults: Ghost<nat>,
}

impl AlignedBuf {
    /// The position in the allocation at which the memory starts.
    closed spec fn start(&self) -> int {
        if self.skipped <= self.block.bytes().len() {
            self.skipped as int
        } else {
            self.block.bytes().len() as int
        }
    }

    /// How many bytes of the allocation lie before the memory.
    pub closed spec fn skip(&self) -> nat {
        self.skipped as nat
    }

    /// The address of the allocation.
    pub closed spec fn spec_base(&self) -> nat {
        self.block.spec_base()
    }

    /// Whether the address of the allocation was read off it.
    pub closed spec fn base_measured(&self) -> bool {
        self.block.measured()
    }

    /// A buffer whose address was read off its memory starts as far behind its
    /// allocation as bytes of that are skipped, and the address of the allocation was
    /// read off it.
    pub proof fn law_measured_address_is_that_of_the_allocation(&self)
        requires
            self.measured(),
        ensures
            self.base_measured(),
            self.address() == self.spec_base() + self.skip(),
    {
    }

    /// `len` zero bytes that start at a multiple of `align`. Where the allocation
    /// lies is up to the machine; what is made of it, [`aligned_part`] says.
    ///
    /// [`aligned_part`]: Self::aligned_part
    pub fn new(len: usize, align: usize) -> (buf: Self)
        requires
            align > 0,
            layout_fits(len as nat, align as nat),
        ensures
            buf.bytes() == zeros(len as nat),
            buf.skip() < align,
            buf.address() >= buf.skip(),
            buf.address() % (align as nat) == 0,
            buf.measured(),
            buf.prefaults() == 0,
    {
        let block = address_of(zeroed(len + (align - 1)));
        let buf = Self::part_of(block, len, align);
        assert(buf.bytes() =~= zeros(len as nat));
        buf
    }

    /// The first `len` bytes of `mem`, an allocation that starts at `base`, that
    /// start at a multiple of `align`. No allocation wraps around the end of the
    /// address space.
    pub fn aligned_part(mem: Vec<u8>, base: usize, len: usize, align: usize) -> (buf: Self)
        requires
            align > 0,
            mem@.len() == len + (align - 1),
            base + mem@.len() <= usize::MAX,
        ensures
            buf.skip() < align,
            (base + buf.skip()) % (align as int) == 0,
            buf.address() == base + buf.skip(),
            buf.bytes() == mem@.subrange(buf.skip() as int, buf.skip() + len),
            !buf.measured(),
            buf.prefaults() == 0,
    {
        Self::part_of(Block::at(mem, base), len, align)
    }

    /// The first `len` bytes of `block` that start at a multiple of `align`.
    fn part_of(block: Block, len: usize, align: usize) -> (buf: Self)
        requires
            align > 0,
            block.bytes().len() == len + (align - 1),
            block.spec_base() + block.bytes().len() <= usize::MAX,
        ensures
            buf.skip() < align,
            (block.spec_base() + buf.skip()) % (align as nat) == 0,
            buf.spec_base() == block.spec_base(),
            buf.address() == block.spec_base() + buf.skip(),
            buf.bytes() == block.bytes().subrange(buf.skip() as int, buf.skip() + len),
            buf.measured() == block.measured(),
            buf.prefaults() == 0,
    {
        let ghost all = block.bytes();
        let _total: usize = block.len();
        let mut block = block;
        let base: usize = block.base();
        let skipped: usize = distance_to_multiple(base, align);
        block.truncate(skipped + len);
        let buf = AlignedBuf { block, skipped, address: base + skipped, prefaults: Ghost(0) };
        assert(buf.bytes() =~= all.subrange(skipped as int, skipped + len));
        buf
    }

    /// Notes that the memory was to be prefaulted.
    pub(crate) fn note_prefault(&mut self)
        ensures
            final(self).bytes() == old(self).bytes(),
            final(self).address() == old(self).address(),
            final(self).measured() == old(self).measured(),
            final(self).prefaults() == old(self).prefaults() + 1,
    {
        self.prefaults = Ghost(self.prefaults@ + 1);
    }

    /// The position in the allocation at which the memory starts.
    fn first(&self) -> (n: usize)
        ensures
            n == self.start() <= self.block.bytes().len(),
    {
        if self.skipped <= self.block.len() {
            self.skipped
        } else {
            self.block.len()
        }
    }
}

impl PageBuf for AlignedBuf {
    closed spec fn bytes(&self) -> Seq<u8> {
        self.block.bytes().subrange(self.start(), self.block.bytes().len() as int)
    }

    closed spec fn address(&self) -> nat {
        self.address as nat
    }

    /// The address of the allocation was read off it, and the memory starts as far
    /// behind that as bytes are skipped.
    closed spec fn measured(&self) -> bool {
        &&& self.block.measured()
        &&& self.address == self.block.spec_base() + self.skipped
        &&& self.skipped <= self.block.bytes().len()
    }

    closed spec fn prefaults(&self) -> nat {
        self.prefaults@
    }

    fn first_byte(&self) -> (n: usize) {
        self.address
    }

    fn as_slice(&self) -> (r: &[u8]) {
        vstd::slice::slice_subrange(self.block.as_slice(), self.first(), self.block.len())
    }

    fn as_mut_slice(&mut self) -> (r: &mut [u8]) {
        let from: usize = self.first();
        let to: usize = self.block.len();
        window_mut(self.block.as_mut_slice(), from, to)
    }
}

/// How far it is from `n` to the next multiple of `align`.
fn distance_to_multiple(n: usize, align: usize) -> (d: usize)
    requires
        align > 0,
    ensures
        d < align,
        (n + d) % (align as int) == 0,
{
    let r: usize = n % align;
    if r == 0 {
        0
    } else {
        proof {
            let q = n as int / align as int;
            vstd::arithmetic::div_mod::lemma_fundamental_div_mod(n as int, align as int);
            assert(n + (align - r) == (q + 1) * align) by (nonlinear_arith)
                requires
                    n == align * q + r,
            ;
            vstd::arithmetic::div_mod::lemma_mod_multiples_basic(q + 1, align as int);
        }
        align - r
    }
}

} // verus!
