//! Pages and their builders.
use vstd::prelude::*;

use crate::memory::{write_at, PageBuf};
use crate::pool::{PoolShared, RawPage};
use crate::source::PageSource;
use crate::tenant::Ledger;
use crate::text::full_message;
#[allow(unused_imports)]
use crate::memory::{site, spliced, Site};
#[allow(unused_imports)]
use crate::pool::{
    after_return, lemma_return_ok, out, page_at, pool_ok, Frame, PoolView, SealedPage,
};
#[allow(unused_imports)]
use crate::slots::live;
#[allow(unused_imports)]
use crate::tally::{lemma_tally_update, place};
#[allow(unused_imports)]
use crate::tenant::{charged, ledger_after_release, Grain};
#[allow(unused_imports)]
use crate::text::full_text;

verus! {

// ---------------------------------------------------------------------------
// Builders
// ---------------------------------------------------------------------------
/// Returned when an append would overflow a page's capacity.
#[derive(Debug, Clone, Copy, PartialEq, Eq, Structural)]
pub struct PageFull {
    pub capacity: usize,
    pub len: usize,
    pub attempted: usize,
}

impl PageFull {
    /// The error in words.
    pub fn message(&self) -> (s: String)
        ensures
            s@ == full_text(
                "page full: attempted to append "@,
                " bytes to page with "@,
                self.attempted as nat,
                self.len as nat,
                self.capacity as nat,
            ),
    {
        full_message(
            "page full: attempted to append ",
            " bytes to page with ",
            self.attempted,
            self.len,
            self.capacity,
        )
    }
}

/// A builder as a value: the bytes of its page and which memory they are, how many
/// of them are content, and which page and which charge it stands for.
pub struct BuilderView {
    pub bytes: Seq<u8>,
    pub site: Site,
    pub len: nat,
    pub serial: nat,
    pub account: nat,
    pub charge: nat,
}

impl BuilderView {
    /// The content written so far.
    pub open spec fn content(self) -> Seq<u8> {
        self.bytes.subrange(0, self.len as int)
    }

    /// The builder holds its page of the pool `v`.
    pub open spec fn held_in(self, v: PoolView) -> bool {
        &&& self.bytes.len() == v.page_size
        &&& self.serial < v.frames.len()
        &&& self.site == v.sites[self.serial as int]
        &&& v.frames[self.serial as int] is Held
    }

    /// The page that the builder is sealed into.
    pub open spec fn sealed(self) -> SealedPage {
        SealedPage {
            content: self.content(),
            site: self.site,
            serial: self.serial,
            account: self.account,
            charge: self.charge,
            handles: 1,
        }
    }
}

/// An exclusive, writable handle to a freshly allocated page.
///
/// A page taken from a free list holds what its last user left in it: write
/// before reading. [`seal`](Self::seal) makes an immutable [`Page`] of it;
/// [`release`](Self::release) gives the page back unsealed.
#[must_use]
pub struct PageBuilder<B> {
    raw: RawPage<B>,
    capacity: usize,
    len: usize,
    account: usize,
    charge: Ghost<nat>,
}

impl<B: PageBuf> View for PageBuilder<B> {
    type V = BuilderView;

    closed spec fn view(&self) -> BuilderView {
        BuilderView {
            bytes: self.raw.buf.bytes(),
            site: site(self.raw.buf),
            len: self.len as nat,
            serial: self.raw.serial@,
            account: self.account as nat,
            charge: self.charge@,
        }
    }
}

impl<B: PageBuf> PageBuilder<B> {
    /// The content lies within the page.
    pub closed spec fn wf(&self) -> bool {
        self.len <= self.capacity == self.raw.buf.bytes().len()
    }

    /// The content lies within the page.
    pub proof fn lemma_wf(&self)
        requires
            self.wf(),
        ensures
            self@.len <= self@.bytes.len() <= usize::MAX,
    {
    }

    /// A builder of the whole page `raw`, with nothing written.
    pub(crate) fn new(raw: RawPage<B>, capacity: usize, account: usize, charge: Ghost<nat>) -> (b:
        Self)
        requires
            raw.buf.bytes().len() == capacity,
        ensures
            b.wf(),
            b@ == (BuilderView {
                bytes: raw.buf.bytes(),
                site: site(raw.buf),
                len: 0,
                serial: raw.serial@,
                account: account as nat,
                charge: charge@,
            }),
    {
        PageBuilder { raw, capacity, len: 0, account, charge }
    }

    /// The number of bytes in the page.
    pub fn capacity(&self) -> (n: usize)
        requires
            self.wf(),
        ensures
            n == self@.bytes.len(),
    {
        self.capacity
    }

    /// The number of bytes of content.
    pub fn len(&self) -> (n: usize)
        ensures
            n == self@.len,
    {
        self.len
    }

    /// Whether there is no content.
    pub fn is_empty(&self) -> (r: bool)
        ensures
            r == (self@.len == 0),
    {
        self.len == 0
    }

    /// The number of bytes that can still be appended.
    pub fn remaining(&self) -> (n: usize)
        requires
            self.wf(),
        ensures
            n == self@.bytes.len() - self@.len,
    {
        self.capacity - self.len
    }

    /// The content.
    pub fn as_slice(&self) -> (r: &[u8])
        requires
            self.wf(),
        ensures
            r@ == self@.content(),
    {
        vstd::slice::slice_subrange(self.raw.buf.as_slice(), 0, self.len)
    }

    /// The whole page, to be written.
    pub fn as_mut_slice(&mut self) -> (r: &mut [u8])
        requires
            old(self).wf(),
        ensures
            r@ == old(self)@.bytes,
            final(r)@.len() == r@.len(),
            final(self).wf(),
            final(self)@ == (BuilderView { bytes: final(r)@, ..old(self)@ }),
    {
        self.raw.buf.as_mut_slice()
    }

    /// Sets the number of bytes of content.
    pub fn set_len(&mut self, len: usize)
        requires
            old(self).wf(),
            len <= old(self)@.bytes.len(),
        ensures
            final(self).wf(),
            final(self)@ == (BuilderView { len: len as nat, ..old(self)@ }),
    {
        self.len = len;
    }

    /// Appends `data` to the content, if it fits. If it does not, the builder is
    /// left as it was.
    pub fn append(&mut self, data: &[u8]) -> (r: Result<(), PageFull>)
        requires
            old(self).wf(),
        ensures
            final(self).wf(),
            r is Ok <==> old(self)@.len + data@.len() <= old(self)@.bytes.len(),
            r is Ok ==> final(self)@ == (BuilderView {
                bytes: spliced(old(self)@.bytes, old(self)@.len as int, data@),
                len: old(self)@.len + data@.len(),
                ..old(self)@
            }),
            r is Ok ==> final(self)@.content() == old(self)@.content() + data@,
            r is Err ==> final(self)@ == old(self)@,
            r is Err ==> r->Err_0.capacity == old(self)@.bytes.len() && r->Err_0.len
                == old(self)@.len && r->Err_0.attempted == data@.len(),
    {
        let cap: usize = self.capacity;
        if data.len() > cap - self.len {
            return Err(PageFull { capacity: cap, len: self.len, attempted: data.len() });
        }
        write_at(self.raw.buf.as_mut_slice(), self.len, data);
        self.len = self.len + data.len();
        assert(self@.content() =~= old(self)@.content() + data@);
        Ok(())
    }

    /// Seals the builder into an immutable, shareable [`Page`] of the pool.
    pub fn seal<S: PageSource<Buf = B>>(self, shared: &mut PoolShared<S>) -> (page: Page)
        requires
            self.wf(),
            old(shared).wf(),
            self@.held_in(old(shared)@),
        ensures
            final(shared).wf(),
            page.key() <= old(shared)@.sealed.len(),
            !live(old(shared)@.sealed, page.key() as int),
            final(shared)@ == after_seal(old(shared)@, page.key(), self@.sealed()),
            page.in_pool(final(shared)@),
    {
        let capacity: usize = self.capacity;
        let len: usize = self.len;
        let ghost serial = self.raw.serial@;
        let ghost before = shared@;
        let key: usize = shared.sealed.insert(
            PageInner { raw: self.raw, len, account: self.account, charge: self.charge },
        );
        shared.frames = Ghost(shared.frames@.update(serial as int, Frame::Sealed));
        let page = Page { key, len, capacity };
        proof {
            assert forall|k: int| live(before.sealed, k) == live(old(shared).sealed@, k) by {
                assert(before.sealed.len() == old(shared).sealed@.len());
            }
            let w = after_seal(before, key as nat, self@.sealed());
            assert(shared@.sealed =~= w.sealed);
            assert(shared@ == w);
            lemma_seal_ok(before, key as nat, self@.sealed());
        }
        page
    }

    /// Gives the page back unsealed, and settles its charge.
    pub fn release<S: PageSource<Buf = B>>(self, shared: &mut PoolShared<S>, ledger: &mut Ledger)
        requires
            self.wf(),
            old(shared).wf(),
            old(ledger).wf(),
            self@.held_in(old(shared)@),
            charged(
                old(ledger)@,
                self@.charge,
                self@.account,
                Grain::Page,
                old(shared)@.page_size,
            ),
        ensures
            final(shared).wf(),
            final(ledger).wf(),
            final(shared)@ == after_return(old(shared)@, self@.serial),
            final(ledger)@ == ledger_after_release(old(ledger)@, self@.charge),
    {
        ledger.settle_page(self.account, self.capacity as u64, self.charge);
        shared.push_return(self.raw);
    }
}

// ---------------------------------------------------------------------------
// Sealed pages
// ---------------------------------------------------------------------------
/// The pool after the held page of `p` is sealed under `key`.
pub open spec fn after_seal(v: PoolView, key: nat, p: SealedPage) -> PoolView {
    PoolView {
        frames: v.frames.update(p.serial as int, Frame::Sealed),
        sealed: place(v.sealed, key as int, Some(p)),
        ..v
    }
}

/// The pool after one more handle to the sealed page `key` is made.
pub open spec fn after_clone(v: PoolView, key: nat) -> PoolView {
    let p = v.sealed[key as int]->0;
    PoolView {
        sealed: v.sealed.update(
            key as int,
            Some(SealedPage { handles: p.handles + 1, ..p }),
        ),
        ..v
    }
}

/// The pool after a handle to the sealed page `key` is given up. With the last
/// handle the page of memory comes back.
pub open spec fn after_drop(v: PoolView, key: nat) -> PoolView {
    let p = v.sealed[key as int]->0;
    if p.handles == 1 {
        after_return(PoolView { sealed: v.sealed.update(key as int, None), ..v }, p.serial)
    } else {
        PoolView {
            sealed: v.sealed.update(
                key as int,
                Some(SealedPage { handles: (p.handles - 1) as nat, ..p }),
            ),
            ..v
        }
    }
}

/// Sealing keeps the pool's invariant.
pub proof fn lemma_seal_ok(v: PoolView, key: nat, p: SealedPage)
    requires
        pool_ok(v),
        key <= v.sealed.len(),
        !live(v.sealed, key as int),
        p.content.len() <= v.page_size,
        p.serial < v.frames.len(),
        p.site == v.sites[p.serial as int],
        v.frames[p.serial as int] is Held,
        p.handles >= 1,
    ensures
        pool_ok(after_seal(v, key, p)),
{
    let w = after_seal(v, key, p);
    lemma_tally_update(v.frames, p.serial as int, Frame::Sealed, out());
    assert forall|k: int| #[trigger] live(w.sealed, k) && k != key implies live(v.sealed, k)
        && w.sealed[k] == v.sealed[k] by {}
}

/// Cloning keeps the pool's invariant.
pub proof fn lemma_clone_ok(v: PoolView, key: nat)
    requires
        pool_ok(v),
        live(v.sealed, key as int),
    ensures
        pool_ok(after_clone(v, key)),
{
    let w = after_clone(v, key);
    assert forall|k: int| #[trigger] live(w.sealed, k) implies live(v.sealed, k)
        && w.sealed[k]->0.serial == v.sealed[k]->0.serial by {}
}

/// The pool with the sealed page `key` taken apart: its page of memory is held
/// by one owner again.
pub open spec fn unsealed(v: PoolView, key: nat) -> PoolView {
    PoolView {
        frames: v.frames.update(v.sealed[key as int]->0.serial as int, Frame::Held),
        sealed: v.sealed.update(key as int, None),
        ..v
    }
}

/// Taking a sealed page apart keeps the pool's invariant.
proof fn lemma_unseal_ok(v: PoolView, key: nat)
    requires
        pool_ok(v),
        live(v.sealed, key as int),
    ensures
        pool_ok(unsealed(v, key)),
{
    let u = unsealed(v, key);
    lemma_tally_update(v.frames, v.sealed[key as int]->0.serial as int, Frame::Held, out());
    assert forall|k: int| #[trigger] live(u.sealed, k) implies live(v.sealed, k) && u.sealed[k]
        == v.sealed[k] && k != key by {}
}

/// Giving up a handle keeps the pool's invariant.
pub proof fn lemma_drop_ok(v: PoolView, key: nat)
    requires
        pool_ok(v),
        live(v.sealed, key as int),
    ensures
        pool_ok(after_drop(v, key)),
{
    let w = after_drop(v, key);
    let p = v.sealed[key as int]->0;
    if p.handles == 1 {
        let u = unsealed(v, key);
        lemma_unseal_ok(v, key);
        lemma_return_ok(u, p.serial);
        assert(after_return(u, p.serial).frames =~= w.frames);
    } else {
        assert forall|k: int| #[trigger] live(w.sealed, k) implies live(v.sealed, k)
            && w.sealed[k]->0.serial == v.sealed[k]->0.serial by {}
    }
}

/// What the handles of a sealed page share.
pub struct PageInner<B> {
    pub(crate) raw: RawPage<B>,
    pub(crate) len: usize,
    pub(crate) account: usize,
    pub(crate) charge: Ghost<nat>,
}

impl<B: PageBuf> PageInner<B> {
    /// The page fits a pool with pages of `page_size` bytes that are the memory
    /// `sites`.
    pub open(crate) spec fn wf(&self, page_size: nat, sites: Seq<Site>) -> bool {
        self.len <= page_size && page_at(self.raw, page_size, sites)
    }

    /// The page as a value.
    pub open(crate) spec fn sealed_page(&self, handles: nat) -> SealedPage {
        SealedPage {
            content: self.raw.buf.bytes().subrange(0, self.len as int),
            site: site(self.raw.buf),
            serial: self.raw.serial@,
            account: self.account as nat,
            charge: self.charge@,
            handles,
        }
    }
}

/// An immutable, counted handle to a sealed page.
///
/// Handles are made with [`clone`](Self::clone) and given up with
/// [`release`](Self::release). With the last one the page of memory returns to
/// its pool and the tenant's charge is settled.
#[must_use]
#[derive(Debug)]
pub struct Page {
    key: usize,
    len: usize,
    capacity: usize,
}

impl Page {
    /// The key of the page among the pool's sealed pages.
    pub closed spec fn key(&self) -> nat {
        self.key as nat
    }

    /// The number of bytes of content that the handle shows.
    pub closed spec fn spec_len(&self) -> nat {
        self.len as nat
    }

    /// The number of bytes of memory that the handle shows.
    pub closed spec fn spec_capacity(&self) -> nat {
        self.capacity as nat
    }

    /// The handle is one of a sealed page of the pool `v`.
    pub open spec fn in_pool(&self, v: PoolView) -> bool {
        &&& live(v.sealed, self.key() as int)
        &&& self.spec_len() == v.sealed[self.key() as int]->0.content.len()
        &&& self.spec_capacity() == v.page_size
    }

    /// The number of bytes of content.
    pub fn len(&self) -> (n: usize)
        ensures
            n == self.spec_len(),
    {
        self.len
    }

    /// Whether there is no content.
    pub fn is_empty(&self) -> (r: bool)
        ensures
            r == (self.spec_len() == 0),
    {
        self.len == 0
    }

    /// The number of bytes in the page of memory.
    pub fn capacity(&self) -> (n: usize)
        ensures
            n == self.spec_capacity(),
    {
        self.capacity
    }

    /// The content.
    pub fn as_slice<'a, S: PageSource>(&self, shared: &'a PoolShared<S>) -> (r: &'a [u8])
        requires
            shared.wf(),
            self.in_pool(shared@),
        ensures
            r@ == shared@.sealed[self.key() as int]->0.content,
    {
        assert(live(shared.sealed@, self.key as int));
        let inner = shared.sealed.get(self.key);
        vstd::slice::slice_subrange(inner.raw.buf.as_slice(), 0, inner.len)
    }

    /// The number of handles to the page.
    pub fn ref_count<S: PageSource>(&self, shared: &PoolShared<S>) -> (n: usize)
        requires
            shared.wf(),
            self.in_pool(shared@),
        ensures
            n == shared@.sealed[self.key() as int]->0.handles,
    {
        assert(live(shared.sealed@, self.key as int));
        shared.sealed.handles(self.key)
    }

    /// Another handle to the page.
    pub fn clone<S: PageSource>(&self, shared: &mut PoolShared<S>) -> (page: Page)
        requires
            old(shared).wf(),
            self.in_pool(old(shared)@),
            old(shared)@.sealed[self.key() as int]->0.handles <= isize::MAX,
        ensures
            final(shared).wf(),
            page == *self,
            final(shared)@ == after_clone(old(shared)@, self.key()),
    {
        assert(live(shared.sealed@, self.key as int));
        shared.sealed.retain(self.key);
        proof {
            assert(shared@.sealed =~= after_clone(old(shared)@, self.key()).sealed);
            lemma_clone_ok(old(shared)@, self.key());
        }
        Page { key: self.key, len: self.len, capacity: self.capacity }
    }

    /// Gives up the handle. With the last one the page of memory joins the return
    /// queue and the tenant's charge is settled.
    pub fn release<S: PageSource>(self, shared: &mut PoolShared<S>, ledger: &mut Ledger)
        requires
            old(shared).wf(),
            old(ledger).wf(),
            self.in_pool(old(shared)@),
            ({
                let p = old(shared)@.sealed[self.key() as int]->0;
                p.handles == 1 ==> charged(
                    old(ledger)@,
                    p.charge,
                    p.account,
                    Grain::Page,
                    old(shared)@.page_size,
                )
            }),
        ensures
            final(shared).wf(),
            final(ledger).wf(),
            final(shared)@ == after_drop(old(shared)@, self.key()),
            ({
                let p = old(shared)@.sealed[self.key() as int]->0;
                final(ledger)@ == if p.handles == 1 {
                    ledger_after_release(old(ledger)@, p.charge)
                } else {
                    old(ledger)@
                }
            }),
    {
        let ghost before = shared@;
        let ghost p = before.sealed[self.key as int]->0;
        assert(live(shared.sealed@, self.key as int));
        let last = shared.sealed.release(self.key);
        proof {
            lemma_drop_ok(before, self.key());
        }
        match last {
            None => {
                assert(shared@.sealed =~= after_drop(before, self.key()).sealed);
            },
            Some(inner) => {
                ledger.settle_page(inner.account, shared.page_size as u64, inner.charge);
                shared.frames = Ghost(shared.frames@.update(p.serial as int, Frame::Held));
                proof {
                    lemma_unseal_ok(before, self.key());
                    assert(shared@.sealed =~= unsealed(before, self.key()).sealed);
                    assert(shared@ == unsealed(before, self.key()));
                }
                shared.push_return(inner.raw);
                assert(shared@.frames =~= after_drop(before, self.key()).frames);
            },
        }
    }
}

} // verus!
