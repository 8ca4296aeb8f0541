//! The memory behind a page: a fixed number of writable bytes.
use vstd::prelude::*;

pub use crate::aligned::AlignedBuf;

verus! {

/// A sequence of `n` zero bytes.
pub open spec fn zeros(n: nat) -> Seq<u8> {
    Seq::new(n, |i: int| 0u8)
}

/// `bytes` with `data` written over it from position `at`.
pub open spec fn spliced(bytes: Seq<u8>, at: int, data: Seq<u8>) -> Seq<u8> {
    bytes.subrange(0, at) + data + bytes.subrange(at + data.len(), bytes.len() as int)
}

/// Whether the global allocator can be asked for `size` bytes aligned to `align`,
/// a power of two: rounded up to a multiple of `align`, the size must not pass
/// `isize::MAX`.
pub open spec fn layout_fits(size: nat, align: nat) -> bool {
    size + (align - 1) <= isize::MAX
}

/// Which memory it is: the address of its first byte, whether that was read off the
/// memory itself, and how often its source was asked to prefault it.
pub struct Site {
    pub address: nat,
    pub measured: bool,
    pub prefaults: nat,
}

/// The site of `buf`.
pub open spec fn site<B: PageBuf>(buf: B) -> Site {
    Site { address: buf.address(), measured: buf.measured(), prefaults: buf.prefaults() }
}

/// Owned memory of a fixed length.
pub trait PageBuf: Sized {
    /// What the memory holds. Memory that is not verified itself leaves this open.
    open spec fn bytes(&self) -> Seq<u8> {
        arbitrary()
    }

    /// Where the memory starts: the address of its first byte. Memory that is not
    /// verified itself leaves this open.
    open spec fn address(&self) -> nat {
        arbitrary()
    }

    /// Whether [`address`](Self::address) was read off the memory itself. Memory that is
    /// not verified itself leaves this open.
    open spec fn measured(&self) -> bool {
        arbitrary()
    }

    /// How often the source was asked to prefault the memory. Memory that is not
    /// verified itself leaves this open.
    open spec fn prefaults(&self) -> nat {
        arbitrary()
    }

    /// The address of the first byte.
    fn first_byte(&self) -> (n: usize)
        ensures
            n == self.address(),
    ;

    /// The memory, to be read.
    fn as_slice(&self) -> (r: &[u8])
        ensures
            r@ == self.bytes(),
    ;

    /// The memory, to be written. It stays the same memory, of the same length.
    fn as_mut_slice(&mut self) -> (r: &mut [u8])
        ensures
            r@ == old(self).bytes(),
            final(r)@.len() == r@.len(),
            final(self).bytes() == final(r)@,
            final(self).address() == old(self).address(),
            final(self).measured() == old(self).measured(),
            final(self).prefaults() == old(self).prefaults(),
    ;
}

/// An allocation, and the number that stands for the address of its first byte.
///
/// Blocks are made in two ways: [`address_of`] reads the number off the memory, and
/// [`Block::at`] is told it. A block knows which: it is `measured` in the first case.
/// The memory is never grown, so it stays where it is.
pub struct Block {
    mem: Vec<u8>,
    base: usize,
    measured: Ghost<bool>,
}

impl Block {
    /// What the memory holds.
    pub closed spec fn bytes(&self) -> Seq<u8> {
        self.mem@
    }

    /// The address of the first byte.
    pub closed spec fn spec_base(&self) -> nat {
        self.base as nat
    }

    /// Whether the address was read off the memory.
    pub closed spec fn measured(&self) -> bool {
        self.measured@
    }

    /// The memory `mem`, which is said to start at `base`.
    pub(crate) fn at(mem: Vec<u8>, base: usize) -> (block: Self)
        ensures
            block.bytes() == mem@,
            block.spec_base() == base,
            !block.measured(),
    {
        Block { mem, base, measured: Ghost(false) }
    }

    /// The address of the first byte.
    pub(crate) fn base(&self) -> (n: usize)
        ensures
            n == self.spec_base(),
    {
        self.base
    }

    /// The number of bytes.
    pub(crate) fn len(&self) -> (n: usize)
        ensures
            n == self.bytes().len(),
    {
        self.mem.len()
    }

    /// Gives up all but the first `n` bytes.
    pub(crate) fn truncate(&mut self, n: usize)
        requires
            n <= old(self).bytes().len(),
        ensures
            final(self).bytes() == old(self).bytes().subrange(0, n as int),
            final(self).spec_base() == old(self).spec_base(),
            final(self).measured() == old(self).measured(),
    {
        self.mem.truncate(n);
    }

    /// The memory, to be read.
    pub(crate) fn as_slice(&self) -> (r: &[u8])
        ensures
            r@ == self.bytes(),
    {
        self.mem.as_slice()
    }

    /// The memory, to be written.
    pub(crate) fn as_mut_slice(&mut self) -> (r: &mut [u8])
        ensures
            r@ == old(self).bytes(),
            final(self).bytes() == final(r)@,
            final(self).spec_base() == old(self).spec_base(),
            final(self).measured() == old(self).measured(),
    {
        self.mem.as_mut_slice()
    }
}

/// `mem` with the address of its first byte: `<[u8]>::as_ptr`, as a number. Trusted:
/// the number is read off this very memory, whose bytes are left as they are, and an
/// allocation does not wrap around the end of the address space. Which address it is,
/// is up to the machine, so nothing is claimed of that.
#[verifier::external_body]
pub(crate) fn address_of(mem: Vec<u8>) -> (block: Block)
    ensures
        block.bytes() == mem@,
        block.measured(),
        block.spec_base() + mem@.len() <= usize::MAX,
{
    let base = mem.as_slice().as_ptr() as usize;
    Block { mem, base, measured: Ghost(true) }
}

/// `&mut bytes[from..to]`, which is `IndexMut<Range<usize>>::index_mut` on a
/// slice. Trusted: the window shows the bytes of the range; it keeps its length
/// as any borrowed slice does; and what is written to it is written to the range
/// and to nothing else.
#[verifier::external_body]
pub(crate) fn window_mut(bytes: &mut [u8], from: usize, to: usize) -> (r: &mut [u8])
    requires
        from <= to <= old(bytes)@.len(),
    ensures
        r@ == old(bytes)@.subrange(from as int, to as int),
        final(r)@.len() == r@.len(),
        final(bytes)@ == spliced(old(bytes)@, from as int, final(r)@),
{
    &mut bytes[from..to]
}

/// Writes `data` into `bytes` from position `at`.
pub(crate) fn write_at(bytes: &mut [u8], at: usize, data: &[u8])
    requires
        at + data@.len() <= old(bytes)@.len(),
    ensures
        final(bytes)@ == spliced(old(bytes)@, at as int, data@),
{
    let n: usize = data.len();
    let total: usize = bytes.len();
    let mut i: usize = 0;
    while i < n
        invariant
            i <= n == data@.len(),
            at + n <= total == old(bytes)@.len(),
            bytes@ == spliced(old(bytes)@, at as int, data@.subrange(0, i as int)),
        decreases n - i,
    {
        bytes[at + i] = data[i];
        i = i + 1;
        assert(bytes@ =~= spliced(old(bytes)@, at as int, data@.subrange(0, i as int)));
    }
    assert(data@.subrange(0, n as int) =~= data@);
}

/// `n` zero bytes from the global allocator.
pub(crate) fn zeroed(n: usize) -> (v: Vec<u8>)
    requires
        n <= isize::MAX,
    ensures
        v@ == zeros(n as nat),
{
    let v = vec![0u8; n];
    assert(v@ =~= zeros(n as nat));
    v
}

} // verus!
