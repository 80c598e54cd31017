//! Rolling buffers: a [RollMut] is written at its end and read from its
//! start; the filled part can be handed out as immutable [Roll]s.
//!
//! A [RollMut] stores its bytes either in one pool buffer ([BufMut]) or, once
//! it has grown past one buffer, in a heap storage of its own. A [Roll] of a
//! pool buffer is a window of that buffer and holds a reference to it; a
//! [Roll] of a heap storage holds a shared copy of the filled bytes, and
//! remembers which storage and which offset it came from.
use vstd::prelude::*;

use std::rc::Rc;
use vstd::string::StringSliceAdditionalSpecFns;

use crate::chan::{ChanReadGuarded, ChanReadState, ChanReadStep};
use crate::bufpool::{
    lemma_window_fits, pool_dec, pool_inc, window_bytes, window_ok, Buf, BufMut, BufPool, Error, PoolView, BUF_SIZE,
};

verus! {

/// What reading into a buffer gave.
#[derive(Debug, Clone, Copy, PartialEq, Eq, Structural)]
pub enum ReadInto {
    /// this many bytes came (none at the end)
    Read(usize),
    /// the reader has nothing yet
    Wait,
    /// the connection was reset
    Reset,
}

/// A heap storage owned by one [RollMut]: the bytes before `off` have been
/// consumed.
pub struct BoxStorage {
    buf: Vec<u8>,
    off: u32,
    id: u64,
}

pub enum StorageMut {
    Buf(BufMut),
    Box(BoxStorage),
}

/// A "rolling buffer". Uses either one [BufMut] or a heap storage. This
/// buffer never grows by itself, but it can be split, and it can be
/// reallocated so it regains its initial capacity, minus the length of the
/// filled part.
pub struct RollMut {
    storage: StorageMut,
    len: u32,
}

/// The slice did not fit into this RollMut.
#[derive(Debug, Clone, Copy, PartialEq, Eq, Structural)]
pub struct DoesNotFit;

impl DoesNotFit {
    /// The message this error prints.
    pub fn message(&self) -> (r: String)
        ensures
            r@ == "slice does not fit into this RollMut"@,
    {
        "slice does not fit into this RollMut".to_string()
    }
}

/// A window of a shared copy of a heap storage's bytes.
pub struct RollBox {
    data: Rc<Vec<u8>>,
    start: usize,
    id: u64,
    off: u32,
    len: u32,
}

pub enum RollInner {
    Buf(Buf),
    Box(RollBox),
    Empty,
}

/// An immutable view into a [RollMut]
pub struct Roll {
    inner: RollInner,
}

/// Copies a slice into a new vector.
fn copy_to_vec(s: &[u8]) -> (r: Vec<u8>)
    ensures
        r@ == s@,
{
    let mut r: Vec<u8> = Vec::new();
    let mut k: usize = 0;
    while k < s.len()
        invariant
            k <= s@.len(),
            r@ == s@.subrange(0, k as int),
        decreases s@.len() - k,
    {
        r.push(s[k]);
        assert(r@ =~= s@.subrange(0, k + 1));
        k = k + 1;
    }
    assert(s@.subrange(0, k as int) =~= s@);
    r
}

/// A vector of `n` zero bytes.
fn zeroes(n: usize) -> (r: Vec<u8>)
    ensures
        r@ == Seq::new(n as nat, |i: int| 0u8),
{
    let mut r: Vec<u8> = Vec::new();
    let mut k: usize = 0;
    while k < n
        invariant
            k <= n,
            r@ == Seq::new(k as nat, |i: int| 0u8),
        decreases n - k,
    {
        r.push(0);
        assert(r@ =~= Seq::new((k + 1) as nat, |i: int| 0u8));
        k = k + 1;
    }
    r
}

/// Copies `s` into a heap storage at `at`.
fn write_box(b: &mut BoxStorage, at: usize, s: &[u8])
    requires
        at + s@.len() <= old(b).buf@.len(),
        old(b).buf@.len() <= u32::MAX,
    ensures
        final(b).buf@ == splice(old(b).buf@, at as int, s@),
        final(b).off == old(b).off,
        final(b).id == old(b).id,
{
    let ghost old_buf = b.buf@;
    let n = s.len();
    let mut k: usize = 0;
    while k < n
        invariant
            k <= n,
            n == s@.len(),
            at + n <= old_buf.len(),
            old_buf.len() <= u32::MAX,
            b.buf@.len() == old_buf.len(),
            b.off == old(b).off,
            b.id == old(b).id,
            b.buf@ == old_buf.subrange(0, at as int) + s@.subrange(0, k as int) + old_buf.subrange(
                at + k,
                old_buf.len() as int,
            ),
        decreases n - k,
    {
        b.buf.set(at + k, s[k]);
        assert(b.buf@ =~= old_buf.subrange(0, at as int) + s@.subrange(0, k + 1) + old_buf.subrange(
            at + k + 1,
            old_buf.len() as int,
        ));
        k = k + 1;
    }
    assert(s@.subrange(0, n as int) =~= s@);
}

/// `buf` with `src` copied in at `at`.
pub open spec fn splice(buf: Seq<u8>, at: int, src: Seq<u8>) -> Seq<u8> {
    buf.subrange(0, at) + src + buf.subrange(at + src.len(), buf.len() as int)
}

impl StorageMut {
    /// The size of the whole storage.
    pub closed spec fn spec_cap(&self) -> nat {
        match self {
            StorageMut::Buf(_) => 4096,
            StorageMut::Box(b) => b.buf@.len(),
        }
    }

    /// The part of the storage that is not consumed yet.
    pub closed spec fn spec_len(&self) -> nat {
        match self {
            StorageMut::Buf(b) => b.len as nat,
            StorageMut::Box(b) => (b.buf@.len() - b.off) as nat,
        }
    }

    fn cap(&self) -> (r: usize)
        requires
            self.spec_cap() <= u32::MAX,
        ensures
            r == self.spec_cap(),
    {
        match self {
            StorageMut::Buf(_) => BUF_SIZE as usize,
            StorageMut::Box(b) => b.buf.len(),
        }
    }

    fn len(&self) -> (r: usize)
        requires
            match self {
                StorageMut::Buf(_) => true,
                StorageMut::Box(b) => b.off <= b.buf@.len(),
            },
        ensures
            r == self.spec_len(),
    {
        match self {
            StorageMut::Buf(b) => b.len(),
            StorageMut::Box(b) => b.buf.len() - b.off as usize,
        }
    }
}

impl RollMut {
    /// The storage is consistent and, for a pool buffer, held.
    pub open spec fn wf(&self, pool: &BufPool) -> bool {
        &&& pool.wf()
        &&& self.shape_ok()
        &&& self.in_pool(pool)
    }

    /// The filled part lies inside the storage.
    pub closed spec fn shape_ok(&self) -> bool {
        match &self.storage {
            StorageMut::Buf(bm) => {
                &&& bm.wf()
                &&& self.len <= bm.len
            },
            StorageMut::Box(b) => {
                &&& b.off <= b.buf@.len()
                &&& self.len <= b.buf@.len() - b.off
                &&& b.buf@.len() <= u32::MAX
                &&& b.buf@.len() >= 8192
            },
        }
    }

    /// The storage belongs to the pool: a held slot, or a heap storage the
    /// pool has numbered.
    pub closed spec fn in_pool(&self, pool: &BufPool) -> bool {
        match &self.storage {
            StorageMut::Buf(bm) => {
                &&& window_ok(bm.index, bm.off, bm.len, pool.size())
                &&& pool.holds(bm.index)
            },
            StorageMut::Box(_) => true,
        }
    }

    /// The filled part, which can be read.
    pub closed spec fn filled_bytes(&self, pool: PoolView) -> Seq<u8> {
        match &self.storage {
            StorageMut::Buf(bm) => window_bytes(pool, bm.index, bm.off, self.len as u16),
            StorageMut::Box(b) => b.buf@.subrange(b.off as int, b.off + self.len),
        }
    }

    pub closed spec fn spec_len(&self) -> nat {
        self.len as nat
    }

    /// How much can still be written.
    pub closed spec fn spec_cap(&self) -> int {
        self.storage.spec_len() - self.len
    }

    /// The size of the whole storage.
    pub closed spec fn spec_storage_size(&self) -> nat {
        self.storage.spec_cap()
    }

    /// The storage is a pool buffer (as opposed to a heap storage).
    pub closed spec fn is_buf(&self) -> bool {
        self.storage is Buf
    }

    /// The pool slot that the storage uses, if it is a pool buffer.
    pub closed spec fn buf_index(&self) -> Option<u32> {
        match &self.storage {
            StorageMut::Buf(bm) => Some(bm.index),
            StorageMut::Box(_) => None,
        }
    }

    /// The pool bytes that this buffer could write to: its whole unconsumed window.
    pub closed spec fn spec_window_start(&self) -> int {
        match &self.storage {
            StorageMut::Buf(bm) => bm.index * 4096 + bm.off,
            StorageMut::Box(_) => 0,
        }
    }

    /// Allocate, using a single [BufMut] for storage.
    pub fn allocate(pool: &mut BufPool) -> (r: Result<RollMut, Error>)
        requires
            old(pool).wf(),
        ensures
            final(pool).wf(),
            final(pool).size() == old(pool).size(),
            r matches Ok(rm) ==> rm.wf(final(pool)) && rm.is_buf() && rm.spec_len() == 0
                && rm.spec_cap() == 4096 && rm.spec_storage_size() == 4096 && (final(pool)@, Some(
                rm.buf_index().unwrap(),
            )) == crate::bufpool::pool_alloc(old(pool)@),
            r matches Err(e) ==> e is OutOfMemory && final(pool)@ == old(pool)@,
            r is Ok <==> old(pool)@.free.len() > 0,
    {
        match BufMut::allocate(pool) {
            Ok(bm) => Ok(RollMut { storage: StorageMut::Buf(bm), len: 0 }),
            Err(e) => Err(e),
        }
    }

    /// The length (filled portion) of this buffer, that can be read
    pub fn len(&self) -> (r: usize)
        ensures
            r == self.spec_len(),
    {
        self.len as usize
    }

    /// Returns true if this is empty
    pub fn is_empty(&self) -> (r: bool)
        ensures
            r == (self.spec_len() == 0),
    {
        self.len == 0
    }

    /// The capacity of this buffer, that can be written to
    pub fn cap(&self, pool: &BufPool) -> (r: usize)
        requires
            self.wf(pool),
        ensures
            r == self.spec_cap(),
    {
        self.storage.len() - self.len as usize
    }

    /// The size of the underlying storage (to know whether
    /// to reallocate or grow)
    pub fn storage_size(&self, pool: &BufPool) -> (r: usize)
        requires
            self.wf(pool),
        ensures
            r == self.spec_storage_size(),
    {
        self.storage.cap()
    }

    /// The filled bytes.
    pub fn bytes<'a>(&'a self, pool: &'a BufPool) -> (r: &'a [u8])
        requires
            self.wf(pool),
        ensures
            r@ == self.filled_bytes(pool@),
            r@.len() == self.spec_len(),
    {
        match &self.storage {
            StorageMut::Buf(bm) => {
                let b = pool.buf_mut_bytes(bm);
                proof {
                    lemma_window_fits(pool@, bm.index, bm.off, bm.len);
                    assert(b@.subrange(0, self.len as int) =~= window_bytes(
                        pool@,
                        bm.index,
                        bm.off,
                        self.len as u16,
                    ));
                }
                &b[0..self.len as usize]
            },
            StorageMut::Box(b) => {
                let s = b.buf.as_slice();
                &s[b.off as usize..b.off as usize + self.len as usize]
            },
        }
    }

    /// Another reference to the pool buffer can still be counted.
    pub open spec fn can_share(&self, pool: &BufPool) -> bool {
        self.buf_index() matches Some(i) ==> pool@.rc[i as int] < i16::MAX
    }

    /// Put a slice into this buffer, fails if the slice doesn't fit in the
    /// buffer's capacity (nothing changes then).
    pub fn put(&mut self, pool: &mut BufPool, s: &[u8]) -> (r: Result<(), DoesNotFit>)
        requires
            old(self).wf(old(pool)),
        ensures
            final(self).wf(final(pool)),
            final(pool).size() == old(pool).size(),
            final(pool)@.rc == old(pool)@.rc,
            final(pool)@.free == old(pool)@.free,
            final(pool)@.next_box_id == old(pool)@.next_box_id,
            s@.len() > old(self).spec_cap() ==> r == Err::<(), DoesNotFit>(DoesNotFit)
                && *final(self) == *old(self) && final(pool)@ == old(pool)@,
            s@.len() <= old(self).spec_cap() ==> {
                &&& r == Ok::<(), DoesNotFit>(())
                &&& final(self).filled_bytes(final(pool)@) == old(self).filled_bytes(old(pool)@)
                    + s@
                &&& final(self).spec_len() == old(self).spec_len() + s@.len()
                &&& final(self).spec_cap() == old(self).spec_cap() - s@.len()
                &&& final(self).spec_storage_size() == old(self).spec_storage_size()
                &&& final(self).buf_index() == old(self).buf_index()
                &&& final(pool)@.mem == if old(self).is_buf() {
                    splice(
                        old(pool)@.mem,
                        old(self).spec_window_start() + old(self).spec_len(),
                        s@,
                    )
                } else {
                    old(pool)@.mem
                }
            },
            forall|r: Roll| r.wf(old(pool)) && r.spared_by(*old(self)) ==> r.wf(final(pool))
                && #[trigger] r.bytes_spec(final(pool)@) == r.bytes_spec(old(pool)@) && r.spared_by(
                *final(self),
            ),
    {
        let n = s.len();
        if n > self.cap(pool) {
            return Err(DoesNotFit);
        }
        let ghost old_filled = self.filled_bytes(pool@);
        let ghost old_mem = pool@.mem;
        if let StorageMut::Buf(bm) = &self.storage {
            proof {
                lemma_window_fits(pool@, bm.index, bm.off, bm.len);
            }
            pool.write(bm, self.len as usize, s);
            proof {
                let lo = bm.index * 4096 + bm.off;
                assert(pool@.mem.subrange(lo, lo + self.len + n) =~= old_mem.subrange(
                    lo,
                    lo + self.len,
                ) + s@);
            }
        } else if let StorageMut::Box(b) = &mut self.storage {
            let base = b.off as usize + self.len as usize;
            let ghost old_buf = b.buf@;
            write_box(b, base, s);
            assert(b.buf@.subrange(b.off as int, base + n) =~= old_buf.subrange(
                b.off as int,
                base as int,
            ) + s@);
        }
        self.len = self.len + n as u32;
        proof {
            assert forall|r: Roll| r.wf(old(pool)) && r.spared_by(*old(self)) implies r.wf(pool)
                && #[trigger] r.bytes_spec(pool@) == r.bytes_spec(old(pool)@) && r.spared_by(
                *self,
            ) by {
                if old(self).is_buf() {
                    lemma_put_clear(r, *old(self), old(pool), n as int);
                    lemma_splice_outside(old(pool)@.mem, old(self).write_pos(), s@);
                    lemma_roll_kept(r, old(pool), pool@, old(self).write_pos(), n as int);
                } else {
                    lemma_roll_kept(r, old(pool), pool@, 0, 0);
                }
            }
        }
        Ok(())
    }

    /// Reads at most `limit` bytes (and at most the capacity) from the
    /// reader into the free part of this buffer: how many came, `Read(0)` at
    /// the end, `Wait` when the reader has nothing yet, or `Reset`.
    pub fn read_into(&mut self, pool: &mut BufPool, limit: usize, r: &mut ChanReadGuarded) -> (res:
        ReadInto)
        requires
            old(self).wf(old(pool)),
            old(r).wf(),
            limit > 0,
            old(self).spec_cap() > 0,
        ensures
            final(self).wf(final(pool)),
            final(r).wf(),
            final(r).state == old(r).state,
            final(pool).size() == old(pool).size(),
            final(pool)@.rc == old(pool)@.rc,
            final(pool)@.free == old(pool)@.free,
            ({
                let rem = old(r).remaining();
                let read_cap = if limit < old(self).spec_cap() { limit as int } else { old(self).spec_cap() };
                let n = if rem.len() < read_cap { rem.len() as int } else { read_cap };
                if rem.len() > 0 {
                    &&& res == ReadInto::Read(n as usize)
                    &&& final(self).filled_bytes(final(pool)@) == old(self).filled_bytes(old(pool)@)
                        + rem.take(n)
                    &&& final(self).spec_len() == old(self).spec_len() + n
                    &&& final(r).remaining() == rem.skip(n)
                } else {
                    &&& *final(self) == *old(self)
                    &&& final(pool)@ == old(pool)@
                    &&& final(r).remaining() == rem
                    &&& res == match old(r).state {
                        ChanReadState::Live => ReadInto::Wait,
                        ChanReadState::Eof => ReadInto::Read(0),
                        ChanReadState::Reset => ReadInto::Reset,
                    }
                }
            }),
    {
        let cap = self.cap(pool);
        let read_cap = if limit < cap {
            limit
        } else {
            cap
        };
        match r.try_read(read_cap) {
            ChanReadStep::Data(d) => {
                let n = d.len();
                match self.put(pool, d.as_slice()) {
                    Ok(()) => {},
                    Err(_) => {},
                }
                ReadInto::Read(n)
            },
            ChanReadStep::Wait => ReadInto::Wait,
            ChanReadStep::Eof => ReadInto::Read(0),
            ChanReadStep::Reset => ReadInto::Reset,
        }
    }

    /// Get a [Roll] corresponding to the filled portion of this buffer
    pub fn filled(&self, pool: &mut BufPool) -> (r: Roll)
        requires
            self.wf(old(pool)),
            self.can_share(old(pool)),
        ensures
            self.wf(final(pool)),
            r.wf(final(pool)),
            r.bytes_spec(final(pool)@) == self.filled_bytes(old(pool)@),
            self.filled_bytes(final(pool)@) == self.filled_bytes(old(pool)@),
            r.spec_len() == self.spec_len(),
            r.origin() == self.origin(),
            !r.is_empty_roll(),
            r.spared_by(*self),
            self.buf_index() matches Some(i) ==> final(pool)@.rc[i as int] >= 2,
            final(pool).size() == old(pool).size(),
            final(pool)@ == match self.buf_index() {
                Some(i) => pool_inc(old(pool)@, i),
                None => old(pool)@,
            },
    {
        match &self.storage {
            StorageMut::Buf(bm) => {
                let b = bm.freeze_slice(pool, 0, self.len as usize);
                Roll { inner: RollInner::Buf(b) }
            },
            StorageMut::Box(b) => {
                let s = b.buf.as_slice();
                let v = copy_to_vec(&s[b.off as usize..b.off as usize + self.len as usize]);
                Roll {
                    inner: RollInner::Box(
                        RollBox { data: Rc::new(v), start: 0, id: b.id, off: b.off, len: self.len },
                    ),
                }
            },
        }
    }

    /// Where the filled part starts: the pool slot or the heap storage, and
    /// the offset within it.
    pub closed spec fn origin(&self) -> (bool, u64, int) {
        match &self.storage {
            StorageMut::Buf(bm) => (true, bm.index as u64, bm.off as int),
            StorageMut::Box(b) => (false, b.id, b.off as int),
        }
    }

    /// Skip the first `n` filled bytes.
    pub fn skip(&mut self, n: usize)
        requires
            old(self).shape_ok(),
            n <= old(self).spec_len(),
        ensures
            final(self).shape_ok(),
            forall|pool: &BufPool| #[trigger] old(self).in_pool(pool) ==> final(self).in_pool(pool),
            forall|pool: &BufPool| #[trigger] old(self).wf(pool) ==> final(self).filled_bytes(pool@)
                == old(self).filled_bytes(pool@).subrange(n as int, old(self).spec_len() as int),
            final(self).spec_len() == old(self).spec_len() - n,
            final(self).spec_cap() == old(self).spec_cap(),
            final(self).spec_storage_size() == old(self).spec_storage_size(),
            final(self).buf_index() == old(self).buf_index(),
            final(self).origin().0 == old(self).origin().0,
            final(self).origin().1 == old(self).origin().1,
            final(self).origin().2 == old(self).origin().2 + n,
            old(self).is_buf() ==> final(self).spec_window_start() == old(self).spec_window_start()
                + n,
            forall|r: Roll| r.spared_by(*old(self)) ==> #[trigger] r.spared_by(*final(self)),
    {
        let u32_n = n as u32;
        if let StorageMut::Buf(bm) = &mut self.storage {
            bm.off = bm.off + n as u16;
            bm.len = bm.len - n as u16;
        } else if let StorageMut::Box(b) = &mut self.storage {
            b.off = b.off + u32_n;
        }
        self.len = self.len - u32_n;
        proof {
            assert forall|pool: &BufPool| #[trigger] old(self).wf(pool) implies self.filled_bytes(
                pool@,
            ) == old(self).filled_bytes(pool@).subrange(n as int, old(self).spec_len() as int) by {
                let v = pool@;
                match &old(self).storage {
                    StorageMut::Buf(bm) => {
                        lemma_window_fits(v, bm.index, bm.off, bm.len);
                        let lo = bm.index * 4096 + bm.off;
                        assert(self.filled_bytes(v) =~= v.mem.subrange(lo, lo + old(self).len).subrange(
                            n as int,
                            old(self).len as int,
                        ));
                    },
                    StorageMut::Box(b) => {
                        assert(self.filled_bytes(v) =~= b.buf@.subrange(
                            b.off as int,
                            b.off + old(self).len,
                        ).subrange(n as int, old(self).len as int));
                    },
                }
            }
        }
    }
}

impl RollMut {
    /// Where, in the pool's memory, the next byte put into this buffer goes
    /// (for a pool buffer; 0 for a heap storage).
    pub closed spec fn write_pos(&self) -> int {
        match &self.storage {
            StorageMut::Buf(bm) => bm.index * 4096 + bm.off + self.len,
            StorageMut::Box(_) => 0,
        }
    }
}

impl Roll {
    /// Writes through `rm` cannot reach this roll: the roll lies in another
    /// storage than `rm`, or ends where `rm`'s filled part ends or before.
    pub closed spec fn spared_by(&self, rm: RollMut) -> bool {
        match (&self.inner, &rm.storage) {
            (RollInner::Buf(b), StorageMut::Buf(bm)) => b.index == bm.index ==> b.off + b.len
                <= bm.off + rm.len,
            _ => true,
        }
    }

    /// The roll's bytes lie outside the pool positions `[at, at + n)`.
    closed spec fn clear_of(&self, at: int, n: int) -> bool {
        match &self.inner {
            RollInner::Buf(b) => b.index * 4096 + b.off + b.len <= at || at + n <= b.index * 4096
                + b.off,
            _ => true,
        }
    }
}

/// When the roll shares `rm`'s pool buffer, that buffer is counted at
/// least twice (once for each), so `rm` giving it up leaves it held.
pub open spec fn shares_slot_counted(r: Roll, rm: RollMut, v: PoolView) -> bool {
    match rm.buf_index() {
        Some(i) => r.buf_index() == Some(i) ==> v.rc[i as int] >= 2,
        None => true,
    }
}

/// Copying `src` in at `at` leaves every other byte as it was.
proof fn lemma_splice_outside(buf: Seq<u8>, at: int, src: Seq<u8>)
    requires
        0 <= at,
        at + src.len() <= buf.len(),
    ensures
        splice(buf, at, src).len() == buf.len(),
        forall|k: int| 0 <= k < buf.len() && !(at <= k < at + src.len()) ==> #[trigger] splice(
            buf,
            at,
            src,
        )[k] == buf[k],
{
    let t = splice(buf, at, src);
    assert forall|k: int| 0 <= k < buf.len() && !(at <= k < at + src.len()) implies #[trigger] t[k]
        == buf[k] by {
        if k < at {
            assert(t[k] == buf.subrange(0, at)[k]);
        } else {
            assert(t[k] == buf.subrange(at + src.len(), buf.len() as int)[k - at - src.len()]);
        }
    }
}

/// A roll keeps its bytes when the pool's memory changed only at positions
/// its bytes do not lie on.
proof fn lemma_roll_kept(r: Roll, pool: &BufPool, v1: PoolView, at: int, n: int)
    requires
        r.wf(pool),
        v1.mem.len() == pool@.mem.len(),
        r.clear_of(at, n),
        forall|k: int| 0 <= k < pool@.mem.len() && !(at <= k < at + n) ==> #[trigger] v1.mem[k]
            == pool@.mem[k],
    ensures
        r.bytes_spec(v1) == r.bytes_spec(pool@),
{
    if let RollInner::Buf(b) = &r.inner {
        lemma_window_fits(pool@, b.index, b.off, b.len);
        let lo = b.index * 4096 + b.off;
        assert forall|k: int| 0 <= k < b.len implies #[trigger] v1.mem.subrange(lo, lo + b.len)[k]
            == pool@.mem.subrange(lo, lo + b.len)[k] by {
            assert(v1.mem[lo + k] == pool@.mem[lo + k]);
        }
        assert(v1.mem.subrange(lo, lo + b.len) =~= pool@.mem.subrange(lo, lo + b.len));
    }
}

/// A write into slot `k` cannot reach a roll of another slot.
proof fn lemma_other_slot_clear(r: Roll, k: u32, at: int, n: int)
    requires
        r.shape_ok(),
        r.buf_index() != Some(k),
        k * 4096 <= at,
        0 <= n,
        at + n <= k * 4096 + 4096,
    ensures
        r.clear_of(at, n),
{
    if let RollInner::Buf(b) = &r.inner {
        if b.index < k {
            assert(b.index * 4096 + 4096 <= k * 4096);
        } else {
            assert(k * 4096 + 4096 <= b.index * 4096);
        }
    }
}

/// What is put into `rm` cannot reach a roll it spares.
proof fn lemma_put_clear(r: Roll, rm: RollMut, pool: &BufPool, n: int)
    requires
        r.wf(pool),
        rm.wf(pool),
        r.spared_by(rm),
        rm.is_buf(),
        0 <= n <= rm.spec_cap(),
    ensures
        r.clear_of(rm.write_pos(), n),
{
    if let StorageMut::Buf(bm) = &rm.storage {
        if r.buf_index() != Some(bm.index) {
            lemma_other_slot_clear(r, bm.index, rm.write_pos(), n);
        }
    }
}

impl Roll {
    /// The roll is consistent and, for a pool buffer, held.
    pub open spec fn wf(&self, pool: &BufPool) -> bool {
        &&& pool.wf()
        &&& self.shape_ok()
        &&& self.in_pool(pool)
    }

    /// The window lies inside its storage.
    pub closed spec fn shape_ok(&self) -> bool {
        match &self.inner {
            RollInner::Buf(b) => b.wf(),
            RollInner::Box(rb) => rb.start + rb.len <= rb.data@.len() && rb.data@.len()
                <= usize::MAX && rb.off + rb.len <= u32::MAX,
            RollInner::Empty => true,
        }
    }

    /// A pool buffer window lies in a slot the pool holds.
    pub closed spec fn in_pool(&self, pool: &BufPool) -> bool {
        match &self.inner {
            RollInner::Buf(b) => window_ok(b.index, b.off, b.len, pool.size()) && pool.holds(
                b.index,
            ),
            _ => true,
        }
    }

    /// The bytes this roll holds.
    pub closed spec fn bytes_spec(&self, pool: PoolView) -> Seq<u8> {
        match &self.inner {
            RollInner::Buf(b) => window_bytes(pool, b.index, b.off, b.len),
            RollInner::Box(rb) => rb.data@.subrange(rb.start as int, rb.start + rb.len),
            RollInner::Empty => Seq::empty(),
        }
    }

    pub closed spec fn spec_len(&self) -> nat {
        match &self.inner {
            RollInner::Buf(b) => b.len as nat,
            RollInner::Box(rb) => rb.len as nat,
            RollInner::Empty => 0,
        }
    }

    /// Where the roll starts: the pool slot or the heap storage, and the
    /// offset within it.
    pub closed spec fn origin(&self) -> (bool, u64, int) {
        match &self.inner {
            RollInner::Buf(b) => (true, b.index as u64, b.off as int),
            RollInner::Box(rb) => (false, rb.id, rb.off as int),
            RollInner::Empty => (false, u64::MAX, 0),
        }
    }

    /// The roll is a window of a pool buffer.
    pub closed spec fn buf_index(&self) -> Option<u32> {
        match &self.inner {
            RollInner::Buf(b) => Some(b.index),
            _ => None,
        }
    }

    /// The roll is the empty roll.
    pub closed spec fn is_empty_roll(&self) -> bool {
        self.inner is Empty
    }

    /// Creates an empty roll
    pub fn empty() -> (r: Roll)
        ensures
            r.is_empty_roll(),
            r.spec_len() == 0,
            forall|pool: &BufPool| pool.wf() ==> #[trigger] r.wf(pool),
            forall|v: PoolView| #[trigger] r.bytes_spec(v) == Seq::<u8>::empty(),
    {
        Roll { inner: RollInner::Empty }
    }

    /// Returns the length of this roll
    pub fn len(&self) -> (r: usize)
        ensures
            r == self.spec_len(),
    {
        match &self.inner {
            RollInner::Buf(b) => b.len(),
            RollInner::Box(b) => b.len as usize,
            RollInner::Empty => 0,
        }
    }

    /// Returns true if this roll is empty
    pub fn is_empty(&self) -> (r: bool)
        ensures
            r == (self.spec_len() == 0),
    {
        self.len() == 0
    }

    /// The bytes of this roll.
    pub fn bytes<'a>(&'a self, pool: &'a BufPool) -> (r: &'a [u8])
        requires
            self.wf(pool),
        ensures
            r@ == self.bytes_spec(pool@),
            r@.len() == self.spec_len(),
    {
        match &self.inner {
            RollInner::Buf(b) => {
                proof {
                    lemma_window_fits(pool@, b.index, b.off, b.len);
                }
                pool.buf_bytes(b)
            },
            RollInner::Box(rb) => {
                let v: &Vec<u8> = &*rb.data;
                let s = v.as_slice();
                &s[rb.start..rb.start + rb.len as usize]
            },
            RollInner::Empty => {
                let r: &[u8] = &[];
                assert(r@ =~= Seq::<u8>::empty());
                r
            },
        }
    }

    /// Split this roll in two at `at`; both parts hold their own reference.
    pub fn split_at(self, pool: &mut BufPool, at: usize) -> (r: (Roll, Roll))
        requires
            self.wf(old(pool)),
            at <= self.spec_len(),
            self.buf_index() matches Some(i) ==> old(pool)@.rc[i as int] < i16::MAX,
        ensures
            r.0.wf(final(pool)),
            r.1.wf(final(pool)),
            r.0.bytes_spec(final(pool)@) == self.bytes_spec(old(pool)@).subrange(0, at as int),
            r.1.bytes_spec(final(pool)@) == self.bytes_spec(old(pool)@).subrange(
                at as int,
                self.spec_len() as int,
            ),
            r.0.spec_len() == at,
            r.1.spec_len() == self.spec_len() - at,
            r.0.origin() == self.origin(),
            !self.is_empty_roll() ==> r.1.origin() == (self.origin().0, self.origin().1, self.origin().2 + at),
            final(pool).size() == old(pool).size(),
            final(pool)@ == match self.buf_index() {
                Some(i) => pool_inc(old(pool)@, i),
                None => old(pool)@,
            },
    {
        match self.inner {
            RollInner::Buf(b) => {
                proof {
                    lemma_window_fits(pool@, b.index, b.off, b.len);
                }
                let ghost v = pool@;
                let ghost lo = b.index * 4096 + b.off;
                let ghost blen = b.len;
                let (left, right) = b.split_at(pool, at);
                proof {
                    assert(window_bytes(pool@, left.index, left.off, left.len) =~= v.mem.subrange(
                        lo,
                        lo + blen,
                    ).subrange(0, at as int));
                    assert(window_bytes(pool@, right.index, right.off, right.len) =~= v.mem.subrange(
                        lo,
                        lo + blen,
                    ).subrange(at as int, blen as int));
                }
                (Roll { inner: RollInner::Buf(left) }, Roll { inner: RollInner::Buf(right) })
            },
            RollInner::Box(rb) => {
                let at32 = at as u32;
                let left = RollBox {
                    data: Rc::clone(&rb.data),
                    start: rb.start,
                    id: rb.id,
                    off: rb.off,
                    len: at32,
                };
                let right = RollBox {
                    data: rb.data,
                    start: rb.start + at,
                    id: rb.id,
                    off: rb.off + at32,
                    len: rb.len - at32,
                };
                proof {
                    assert(left.data@.subrange(left.start as int, left.start + left.len) =~= rb.data@.subrange(
                        rb.start as int,
                        rb.start + rb.len,
                    ).subrange(0, at as int));
                    assert(right.data@.subrange(right.start as int, right.start + right.len) =~= rb.data@.subrange(
                        rb.start as int,
                        rb.start + rb.len,
                    ).subrange(at as int, rb.len as int));
                }
                (Roll { inner: RollInner::Box(left) }, Roll { inner: RollInner::Box(right) })
            },
            RollInner::Empty => {
                (Roll { inner: RollInner::Empty }, Roll { inner: RollInner::Empty })
            },
        }
    }

    /// Take the owned slice `start..end` of this roll. The empty roll cannot be sliced.
    pub fn slice(self, start: usize, end: usize) -> (r: Roll)
        requires
            self.shape_ok(),
            !self.is_empty_roll(),
            start <= end <= self.spec_len(),
        ensures
            r.shape_ok(),
            forall|pool: &BufPool| #[trigger] self.wf(pool) ==> r.wf(pool) && r.bytes_spec(pool@)
                == self.bytes_spec(pool@).subrange(start as int, end as int),
            r.spec_len() == end - start,
            r.buf_index() == self.buf_index(),
            !r.is_empty_roll(),
            r.origin() == (self.origin().0, self.origin().1, self.origin().2 + start),
    {
        let r = match self.inner {
            RollInner::Buf(b) => Roll { inner: RollInner::Buf(b.slice(start, end)) },
            RollInner::Box(rb) => Roll {
                inner: RollInner::Box(
                    RollBox {
                        data: rb.data,
                        start: rb.start + start,
                        id: rb.id,
                        off: rb.off + start as u32,
                        len: (end - start) as u32,
                    },
                ),
            },
            RollInner::Empty => Roll { inner: RollInner::Empty },
        };
        proof {
            assert forall|pool: &BufPool| #[trigger] self.wf(pool) implies r.wf(pool)
                && r.bytes_spec(pool@) == self.bytes_spec(pool@).subrange(
                start as int,
                end as int,
            ) by {
                match &self.inner {
                    RollInner::Buf(b) => {
                        lemma_window_fits(pool@, b.index, b.off, b.len);
                        let lo = b.index * 4096 + b.off;
                        assert(r.bytes_spec(pool@) =~= pool@.mem.subrange(lo, lo + b.len).subrange(
                            start as int,
                            end as int,
                        ));
                    },
                    RollInner::Box(rb) => {
                        assert(r.bytes_spec(pool@) =~= rb.data@.subrange(
                            rb.start as int,
                            rb.start + rb.len,
                        ).subrange(start as int, end as int));
                    },
                    RollInner::Empty => {},
                }
            }
        }
        r
    }

    /// Another handle to the same bytes; for a pool buffer it holds a reference of its own.
    pub fn clone_in(&self, pool: &mut BufPool) -> (r: Roll)
        requires
            self.wf(old(pool)),
            self.buf_index() matches Some(i) ==> old(pool)@.rc[i as int] < i16::MAX,
        ensures
            self.wf(final(pool)),
            r.wf(final(pool)),
            r.bytes_spec(final(pool)@) == self.bytes_spec(old(pool)@),
            self.bytes_spec(final(pool)@) == self.bytes_spec(old(pool)@),
            r.spec_len() == self.spec_len(),
            r.origin() == self.origin(),
            r.buf_index() == self.buf_index(),
            r.is_empty_roll() == self.is_empty_roll(),
            final(pool).size() == old(pool).size(),
            final(pool)@ == match self.buf_index() {
                Some(i) => pool_inc(old(pool)@, i),
                None => old(pool)@,
            },
    {
        match &self.inner {
            RollInner::Buf(b) => Roll { inner: RollInner::Buf(b.clone_in(pool)) },
            RollInner::Box(rb) => Roll {
                inner: RollInner::Box(
                    RollBox {
                        data: Rc::clone(&rb.data),
                        start: rb.start,
                        id: rb.id,
                        off: rb.off,
                        len: rb.len,
                    },
                ),
            },
            RollInner::Empty => Roll { inner: RollInner::Empty },
        }
    }

    /// This roll is given back: a pool buffer loses the reference the roll held.
    pub fn release(self, pool: &mut BufPool)
        requires
            self.wf(old(pool)),
        ensures
            final(pool).wf(),
            final(pool).size() == old(pool).size(),
            final(pool)@ == match self.buf_index() {
                Some(i) => pool_dec(old(pool)@, i),
                None => old(pool)@,
            },
    {
        match self.inner {
            RollInner::Buf(b) => pool.release_buf(b),
            _ => {},
        }
    }
}


impl Roll {
    /// The offset within its storage at which this roll starts.
    fn start_offset(&self) -> (r: u32)
        requires
            !self.is_empty_roll(),
        ensures
            r == self.origin().2,
    {
        match &self.inner {
            RollInner::Buf(b) => b.off as u32,
            RollInner::Box(rb) => rb.off,
            RollInner::Empty => 0,
        }
    }
}

/// Copies `src` to the start of `dst`.
fn copy_into_prefix(dst: &mut Vec<u8>, src: &[u8])
    requires
        src@.len() <= old(dst)@.len(),
    ensures
        final(dst)@ == src@ + old(dst)@.subrange(src@.len() as int, old(dst)@.len() as int),
{
    let ghost d0 = dst@;
    let mut k: usize = 0;
    while k < src.len()
        invariant
            k <= src@.len(),
            src@.len() <= d0.len(),
            dst@ == src@.subrange(0, k as int) + d0.subrange(k as int, d0.len() as int),
        decreases src@.len() - k,
    {
        dst.set(k, src[k]);
        assert(dst@ =~= src@.subrange(0, k + 1) + d0.subrange(k + 1, d0.len() as int));
        k = k + 1;
    }
    assert(src@.subrange(0, k as int) =~= src@);
}

impl RollMut {
    /// The storage size that [RollMut::realloc] moves to: one pool buffer,
    /// unless the filled part needs more than that (then the storage keeps
    /// its size).
    pub proof fn lemma_realloc_size(&self)
        requires
            self.shape_ok(),
        ensures
            self.spec_len() <= 4096 ==> self.realloc_size() == 4096,
            self.spec_len() > 4096 ==> self.realloc_size() == self.spec_storage_size(),
            self.is_buf() ==> self.spec_len() <= 4096,
    {
        match &self.storage {
            StorageMut::Buf(bm) => {
                assert(bm.len <= 4096);
            },
            StorageMut::Box(_) => {},
        }
    }

    /// The storage size that [RollMut::realloc] moves to: one pool buffer,
    /// unless a heap storage's filled part needs more than that.
    pub closed spec fn realloc_size(&self) -> nat {
        match &self.storage {
            StorageMut::Buf(_) => 4096,
            StorageMut::Box(b) => if self.len > 4096 {
                b.buf@.len()
            } else {
                4096
            },
        }
    }

    /// Takes the first `n` bytes (up to `len`) as a `Roll`, and advances
    /// this buffer. Returns `None` if `len` is zero.
    pub fn take_at_most(&mut self, pool: &mut BufPool, n: usize) -> (r: Option<Roll>)
        requires
            old(self).wf(old(pool)),
            old(self).can_share(old(pool)),
            n != 0,
        ensures
            final(self).wf(final(pool)),
            final(pool).size() == old(pool).size(),
            final(self).spec_cap() == old(self).spec_cap(),
            final(self).spec_storage_size() == old(self).spec_storage_size(),
            old(self).spec_len() == 0 ==> r is None && *final(self) == *old(self) && final(pool)@
                == old(pool)@,
            old(self).spec_len() > 0 ==> {
                let m = if n < old(self).spec_len() { n as int } else { old(self).spec_len() as int };
                &&& r matches Some(roll) && roll.wf(final(pool)) && roll.bytes_spec(final(pool)@)
                    == old(self).filled_bytes(old(pool)@).subrange(0, m) && roll.spec_len() == m
                &&& final(self).filled_bytes(final(pool)@) == old(self).filled_bytes(
                    old(pool)@,
                ).subrange(m, old(self).spec_len() as int)
                &&& final(self).spec_len() == old(self).spec_len() - m
                &&& final(pool)@ == match old(self).buf_index() {
                    Some(i) => pool_inc(old(pool)@, i),
                    None => old(pool)@,
                }
            },
    {
        if self.len == 0 {
            return None;
        }
        let n = if n < self.len as usize {
            n
        } else {
            self.len as usize
        };
        let roll = self.filled(pool).slice(0, n);
        self.skip(n);
        Some(roll)
    }

    /// Takes the whole filled part. It must not be empty.
    pub fn take_all(&mut self, pool: &mut BufPool) -> (r: Roll)
        requires
            old(self).wf(old(pool)),
            old(self).can_share(old(pool)),
            old(self).spec_len() > 0,
        ensures
            final(self).wf(final(pool)),
            final(pool).size() == old(pool).size(),
            r.wf(final(pool)),
            r.bytes_spec(final(pool)@) == old(self).filled_bytes(old(pool)@),
            r.spec_len() == old(self).spec_len(),
            r.buf_index() == old(self).buf_index(),
            final(self).spec_len() == 0,
            final(self).spec_cap() == old(self).spec_cap(),
            final(self).spec_storage_size() == old(self).spec_storage_size(),
            final(self).buf_index() == old(self).buf_index(),
            final(pool)@ == match old(self).buf_index() {
                Some(i) => pool_inc(old(pool)@, i),
                None => old(pool)@,
            },
    {
        let roll = self.filled(pool);
        let n = roll.len();
        self.skip(n);
        proof {
            assert(old(self).filled_bytes(old(pool)@) =~= old(self).filled_bytes(old(pool)@).subrange(
                0,
                n as int,
            ));
        }
        roll
    }

    /// Advance this buffer, keeping the filled part only starting with the
    /// given roll, which must start within the filled part of this buffer.
    /// (Useful after parsing something.) The roll is given back.
    pub fn keep(&mut self, pool: &mut BufPool, roll: Roll)
        requires
            old(self).wf(old(pool)),
            roll.wf(old(pool)),
            !roll.is_empty_roll(),
            roll.origin().0 == old(self).origin().0,
            roll.origin().1 == old(self).origin().1,
            old(self).origin().2 <= roll.origin().2 <= old(self).origin().2 + old(self).spec_len(),
            roll.buf_index() matches Some(i) ==> old(pool)@.rc[i as int] >= 2,
        ensures
            final(self).wf(final(pool)),
            final(pool).size() == old(pool).size(),
            final(self).filled_bytes(final(pool)@) == old(self).filled_bytes(old(pool)@).subrange(
                roll.origin().2 - old(self).origin().2,
                old(self).spec_len() as int,
            ),
            final(self).spec_len() == old(self).spec_len() - (roll.origin().2 - old(
                self,
            ).origin().2),
            final(self).spec_cap() == old(self).spec_cap(),
            final(self).spec_storage_size() == old(self).spec_storage_size(),
            final(self).buf_index() == old(self).buf_index(),
            final(pool)@ == match roll.buf_index() {
                Some(i) => pool_dec(old(pool)@, i),
                None => old(pool)@,
            },
            forall|r: Roll| r.wf(old(pool)) && r.spared_by(*old(self)) ==> r.wf(final(pool))
                && #[trigger] r.bytes_spec(final(pool)@) == r.bytes_spec(old(pool)@) && r.spared_by(
                *final(self),
            ),
    {
        let ours = match &self.storage {
            StorageMut::Buf(bm) => bm.off as u32,
            StorageMut::Box(b) => b.off,
        };
        let theirs = roll.start_offset();
        let skipped = theirs - ours;
        self.skip(skipped as usize);
        proof {
            if let RollInner::Buf(b) = &roll.inner {
                assert(self.buf_index() == Some(b.index));
            }
        }
        roll.release(pool);
        proof {
            if let StorageMut::Buf(bm) = &self.storage {
                lemma_window_fits(old(pool)@, bm.index, bm.off, bm.len);
                let lo = bm.index * 4096 + bm.off;
                assert(self.filled_bytes(pool@) =~= self.filled_bytes(old(pool)@));
            }
        }
    }

    /// Double the capacity of this buffer by reallocating it, copying the
    /// filled part into the new storage. This method always uses a heap
    /// storage. A pool buffer that was used before is given back.
    pub fn grow(&mut self, pool: &mut BufPool)
        requires
            old(self).wf(old(pool)),
            old(self).spec_storage_size() * 2 <= u32::MAX,
        ensures
            final(self).wf(final(pool)),
            final(pool).size() == old(pool).size(),
            final(self).filled_bytes(final(pool)@) == old(self).filled_bytes(old(pool)@),
            final(self).spec_len() == old(self).spec_len(),
            final(self).spec_storage_size() == 2 * old(self).spec_storage_size(),
            final(self).spec_cap() == 2 * old(self).spec_storage_size() - old(self).spec_len(),
            !final(self).is_buf(),
            final(pool)@ == (PoolView {
                next_box_id: crate::bufpool::next_id(old(pool)@.next_box_id),
                ..match old(self).buf_index() {
                    Some(i) => pool_dec(old(pool)@, i),
                    None => old(pool)@,
                }
            }),
            forall|r: Roll| r.wf(old(pool)) && r.spared_by(*old(self)) && shares_slot_counted(
                r,
                *old(self),
                old(pool)@,
            ) ==> r.wf(final(pool)) && #[trigger] r.bytes_spec(final(pool)@) == r.bytes_spec(
                old(pool)@,
            ) && r.spared_by(*final(self)),
    {
        let old_cap = self.storage.cap();
        let new_cap = old_cap * 2;
        let data = copy_to_vec(self.bytes(pool));
        let mut b = zeroes(new_cap);
        copy_into_prefix(&mut b, data.as_slice());
        let id = pool.new_box_id();
        let mut next = StorageMut::Box(BoxStorage { buf: b, off: 0, id });
        std::mem::swap(&mut self.storage, &mut next);
        proof {
            assert(self.filled_bytes(pool@) =~= data@);
        }
        match next {
            StorageMut::Buf(bm) => {
                pool.release_buf_mut(bm);
            },
            StorageMut::Box(_) => {},
        }
    }

    /// Reallocates the backing storage for this buffer, copying the filled
    /// portion into it: a pool buffer, unless a heap storage's filled part
    /// needs more, in which case a heap storage of the same size. The buffer
    /// must not be full. When no pool buffer is free, nothing changes.
    pub fn realloc(&mut self, pool: &mut BufPool) -> (r: Result<(), Error>)
        requires
            old(self).wf(old(pool)),
            old(self).spec_len() != old(self).spec_storage_size(),
        ensures
            final(self).wf(final(pool)),
            final(pool).size() == old(pool).size(),
            final(self).filled_bytes(final(pool)@) == old(self).filled_bytes(old(pool)@),
            final(self).spec_len() == old(self).spec_len(),
            r is Err ==> r == Err::<(), Error>(Error::OutOfMemory) && *final(self) == *old(self)
                && final(pool)@ == old(pool)@ && old(pool)@.free.len() == 0,
            r is Err <==> old(self).realloc_size() == 4096 && old(pool)@.free.len() == 0,
            r is Ok ==> final(self).can_share(final(pool)),
            r is Ok ==> final(self).spec_storage_size() == old(self).realloc_size()
                && final(self).spec_cap() == old(self).realloc_size() - old(self).spec_len()
                && final(self).is_buf() == (old(self).realloc_size() == 4096 && (old(self).is_buf()
                || old(self).spec_len() <= 4096)),
            forall|r: Roll| r.wf(old(pool)) && r.spared_by(*old(self)) && shares_slot_counted(
                r,
                *old(self),
                old(pool)@,
            ) ==> r.wf(final(pool)) && #[trigger] r.bytes_spec(final(pool)@) == r.bytes_spec(
                old(pool)@,
            ) && r.spared_by(*final(self)),
    {
        let data = copy_to_vec(self.bytes(pool));
        let big_box = match &self.storage {
            StorageMut::Buf(_) => false,
            StorageMut::Box(_) => self.len > 4096,
        };
        let mut next = if big_box {
            let size = self.storage.cap();
            let mut b = zeroes(size);
            copy_into_prefix(&mut b, data.as_slice());
            let id = pool.new_box_id();
            StorageMut::Box(BoxStorage { buf: b, off: 0, id })
        } else {
            let ghost before = pool@;
            let next_b = match BufMut::allocate(pool) {
                Ok(b) => b,
                Err(e) => {
                    return Err(e);
                },
            };
            proof {
                assert(before.free.contains(before.free[0]));
                assert(before.rc[before.free[0] as int] == 0);
            }
            proof {
                lemma_window_fits(pool@, next_b.index, next_b.off, next_b.len);
            }
            pool.write(&next_b, 0, data.as_slice());
            StorageMut::Buf(next_b)
        };
        std::mem::swap(&mut self.storage, &mut next);
        proof {
            if let StorageMut::Buf(bm) = &self.storage {
                lemma_window_fits(pool@, bm.index, bm.off, bm.len);
                let lo = bm.index * 4096;
                assert(self.filled_bytes(pool@) =~= pool@.mem.subrange(lo, lo + self.len));
            }
            assert(self.filled_bytes(pool@) =~= data@);
        }
        let ghost mid = pool@;
        match next {
            StorageMut::Buf(bm) => {
                pool.release_buf_mut(bm);
            },
            StorageMut::Box(_) => {},
        }
        proof {
            if let StorageMut::Buf(bm) = &self.storage {
                lemma_window_fits(pool@, bm.index, bm.off, bm.len);
                assert(self.filled_bytes(pool@) =~= self.filled_bytes(mid));
            }
        }
        Ok(())
    }

    /// Reserve more capacity for this buffer if it is full: when the filled
    /// part is smaller than the storage, this reallocates; otherwise it grows.
    /// A buffer that is not full is left as it is.
    pub fn reserve(&mut self, pool: &mut BufPool) -> (r: Result<(), Error>)
        requires
            old(self).wf(old(pool)),
            old(self).spec_cap() == 0 && old(self).spec_len() >= old(self).spec_storage_size()
                ==> old(self).spec_storage_size() * 2 <= u32::MAX,
        ensures
            final(self).wf(final(pool)),
            final(pool).size() == old(pool).size(),
            final(self).filled_bytes(final(pool)@) == old(self).filled_bytes(old(pool)@),
            final(self).spec_len() == old(self).spec_len(),
            old(self).spec_cap() > 0 ==> r is Ok && *final(self) == *old(self) && final(pool)@
                == old(pool)@,
            old(self).spec_cap() == 0 && old(self).spec_len() < old(self).spec_storage_size() ==> (
            r is Ok ==> final(self).spec_cap() == old(self).realloc_size() - old(self).spec_len()
                && final(self).spec_storage_size() == old(self).realloc_size()),
            old(self).spec_cap() == 0 && old(self).spec_len() < old(self).spec_storage_size() ==> (
            r is Err <==> old(self).realloc_size() == 4096 && old(pool)@.free.len() == 0),
            old(self).spec_cap() == 0 && old(self).spec_len() >= old(self).spec_storage_size()
                ==> r is Ok && final(self).spec_storage_size() == 2 * old(self).spec_storage_size()
                && final(self).spec_cap() == 2 * old(self).spec_storage_size() - old(self).spec_len(),
            r is Err ==> r == Err::<(), Error>(Error::OutOfMemory) && *final(self) == *old(self),
    {
        let len = self.len();
        if self.cap(pool) > 0 {
            return Ok(());
        }
        if len < self.storage_size(pool) {
            self.realloc(pool)
        } else {
            self.grow(pool);
            Ok(())
        }
    }

    /// Make sure at least `requested_len` bytes can be written: while they
    /// cannot, a buffer whose window does not start at its storage's start
    /// is reallocated, and a full-width one is grown. Only what a `u32`
    /// length can hold is reachable (storage sizes stay within 2^31).
    pub fn reserve_at_least(&mut self, pool: &mut BufPool, requested_len: usize) -> (r: Result<
        (),
        Error,
    >)
        requires
            old(self).wf(old(pool)),
            old(self).spec_len() + requested_len <= 0x8000_0000,
        ensures
            final(self).wf(final(pool)),
            final(pool).size() == old(pool).size(),
            final(self).filled_bytes(final(pool)@) == old(self).filled_bytes(old(pool)@),
            final(self).spec_len() == old(self).spec_len(),
            r is Ok ==> final(self).spec_cap() >= requested_len,
            old(self).can_share(old(pool)) ==> final(self).can_share(final(pool)),
            old(self).spec_cap() >= requested_len ==> r is Ok && *final(self) == *old(self)
                && final(pool)@ == old(pool)@,
            r is Err ==> r == Err::<(), Error>(Error::OutOfMemory) && *final(self) == *old(self)
                && final(pool)@ == old(pool)@,
            r is Err ==> old(pool)@.free.len() == 0 && old(self).spec_cap() + old(self).spec_len()
                < old(self).spec_storage_size(),
    {
        let ghost start_pool = pool@;
        let ghost start_filled = self.filled_bytes(pool@);
        let ghost start_len = self.spec_len();
        if self.cap(pool) >= requested_len {
            return Ok(());
        }
        let len = self.len();
        while self.cap(pool) < requested_len
            invariant
                start_pool == old(pool)@,
                start_filled == old(self).filled_bytes(old(pool)@),
                start_len == old(self).spec_len(),
                len == start_len,
                old(self).spec_cap() < requested_len,
                old(self).can_share(old(pool)) ==> self.can_share(pool),
                self.wf(pool),
                self.filled_bytes(pool@) == start_filled,
                self.spec_len() == start_len,
                start_len + requested_len <= 0x8000_0000,
                pool.size() == start_pool.rc.len(),
                self.spec_cap() + start_len < self.spec_storage_size() ==> *self == *old(self)
                    && pool@ == start_pool,
            decreases (if self.spec_cap() >= requested_len {
                0
            } else if self.spec_cap() + start_len < self.spec_storage_size() {
                requested_len + start_len + 1
            } else {
                requested_len + start_len - self.spec_storage_size()
            }),
        {
            proof {
                self.lemma_cap_within_storage(pool);
            }
            if self.cap(pool) + len < self.storage_size(pool) {
                match self.realloc(pool) {
                    Ok(()) => {},
                    Err(e) => {
                        return Err(e);
                    },
                }
            } else {
                self.grow(pool);
            }
        }
        Ok(())
    }

    /// The window (what is filled and what can still be written) lies within
    /// the storage.
    pub proof fn lemma_cap_within_storage(&self, pool: &BufPool)
        requires
            self.wf(pool),
        ensures
            0 <= self.spec_cap(),
            self.spec_cap() + self.spec_len() <= self.spec_storage_size(),
            self.spec_storage_size() <= u32::MAX,
            self.spec_storage_size() > 0,
    {
        match &self.storage {
            StorageMut::Buf(bm) => {
                assert(bm.off + bm.len <= 4096);
            },
            StorageMut::Box(_) => {},
        }
    }

    /// Assert that this RollMut isn't filled at all, reserve enough size to
    /// put `data` in it, put it there, and take it out as a [Roll].
    pub fn put_to_roll(&mut self, pool: &mut BufPool, data: &[u8]) -> (r: Result<Roll, Error>)
        requires
            old(self).wf(old(pool)),
            old(self).can_share(old(pool)),
            old(self).spec_len() == 0,
            0 < data@.len() <= 0x8000_0000,
        ensures
            final(self).wf(final(pool)),
            final(pool).size() == old(pool).size(),
            final(self).spec_len() == 0,
            r matches Ok(roll) ==> roll.wf(final(pool)) && roll.bytes_spec(final(pool)@) == data@
                && roll.spec_len() == data@.len(),
            old(self).spec_cap() >= data@.len() ==> r is Ok,
            r is Err ==> (r matches Err(e) && e is OutOfMemory) && *final(self) == *old(self)
                && final(pool)@ == old(pool)@ && old(pool)@.free.len() == 0,
    {
        match self.reserve_at_least(pool, data.len()) {
            Ok(()) => {},
            Err(e) => {
                return Err(e);
            },
        }
        let ghost before = self.filled_bytes(pool@);
        match self.put(pool, data) {
            Ok(()) => {},
            Err(_) => {
                return Err(Error::DoesNotFit);
            },
        }
        assert(before =~= Seq::<u8>::empty());
        assert(self.filled_bytes(pool@) =~= data@);
        Ok(self.take_all(pool))
    }

    /// Writes `buf` at the end of the filled part, reserving more room first
    /// when it does not fit; returns how many bytes were written (all of them).
    pub fn write(&mut self, pool: &mut BufPool, buf: &[u8]) -> (r: Result<usize, Error>)
        requires
            old(self).wf(old(pool)),
            old(self).spec_storage_size() * 2 <= u32::MAX,
        ensures
            final(self).wf(final(pool)),
            final(pool).size() == old(pool).size(),
            r matches Ok(n) ==> n == buf@.len() && final(self).filled_bytes(final(pool)@) == old(
                self,
            ).filled_bytes(old(pool)@) + buf@,
            r is Err ==> final(self).filled_bytes(final(pool)@) == old(self).filled_bytes(
                old(pool)@,
            ) && (r matches Err(e) && (e is OutOfMemory || e is DoesNotFit)),
            buf@.len() <= old(self).spec_cap() ==> r is Ok,
    {
        let n = buf.len();
        if self.cap(pool) < n {
            match self.reserve(pool) {
                Ok(()) => {},
                Err(e) => {
                    return Err(e);
                },
            }
        }
        match self.put(pool, buf) {
            Ok(()) => Ok(n),
            Err(_) => Err(Error::DoesNotFit),
        }
    }
}


#[verifier::external_type_specification]
#[verifier::external_body]
pub struct ExUtf8Error(std::str::Utf8Error);

/// `std::str::from_utf8`: the contract claims it accepts exactly the valid
/// UTF-8 byte strings, and that an accepted string has the same bytes.
#[verifier::external_body]
pub(crate) fn str_from_utf8(v: &[u8]) -> (r: Result<&str, std::str::Utf8Error>)
    ensures
        r is Ok <==> vstd::utf8::valid_utf8(v@),
        r matches Ok(s) ==> s@ == vstd::utf8::decode_utf8(v@),
{
    std::str::from_utf8(v)
}

/// What `String::from_utf8_lossy` makes of a byte string.
pub uninterp spec fn utf8_lossy(bytes: Seq<u8>) -> Seq<char>;

/// `String::from_utf8_lossy`, owned: the contract names the result, and
/// claims (as std documents) that valid UTF-8 is decoded unchanged.
#[verifier::external_body]
fn string_from_utf8_lossy(v: &[u8]) -> (r: String)
    ensures
        r@ == utf8_lossy(v@),
        vstd::utf8::valid_utf8(v@) ==> r@ == vstd::utf8::decode_utf8(v@),
{
    String::from_utf8_lossy(v).into_owned()
}

/// `memchr::memchr`: the contract claims it returns the index of the first
/// occurrence of `needle` in `haystack`, or `None` when there is none.
#[verifier::external_body]
fn memchr(needle: u8, haystack: &[u8]) -> (r: Option<usize>)
    ensures
        match r {
            Some(i) => i < haystack@.len() && haystack@[i as int] == needle && forall|j: int|
                0 <= j < i ==> haystack@[j] != needle,
            None => forall|j: int| 0 <= j < haystack@.len() ==> haystack@[j] != needle,
        },
{
    memchr::memchr(needle, haystack)
}

/// The result of comparing input with a tag.
#[derive(Debug, Clone, Copy, PartialEq, Eq, Structural)]
pub enum CompareResult {
    Matches,
    Incomplete,
    Error,
}

/// How input `a` compares with tag `t`, byte by byte after `f`.
pub open spec fn compare_spec(a: Seq<u8>, t: Seq<u8>, no_case: bool) -> CompareResult {
    let m = if a.len() < t.len() { a.len() } else { t.len() };
    if exists|k: int|
        0 <= k < m && (if no_case {
            lowercase(a[k]) != lowercase(t[k])
        } else {
            a[k] != t[k]
        })
    {
        CompareResult::Error
    } else if a.len() < t.len() {
        CompareResult::Incomplete
    } else {
        CompareResult::Matches
    }
}

pub open spec fn lowercase(c: u8) -> u8 {
    if 0x41 <= c <= 0x5a {
        (c + 0x20) as u8
    } else {
        c
    }
}

/// ASCII upper case letters become lower case; other bytes stay.
pub fn lowercase_byte(c: u8) -> (r: u8)
    ensures
        r == lowercase(c),
{
    if 0x41 <= c && c <= 0x5a {
        c - 0x41 + 0x61
    } else {
        c
    }
}

/// `sub` occurs in `s` at `i`.
pub open spec fn occurs_at(s: Seq<u8>, sub: Seq<u8>, i: int) -> bool {
    0 <= i && i + sub.len() <= s.len() && s.subrange(i, i + sub.len()) == sub
}

/// The first position where `sub` occurs in `s`.
pub open spec fn find_spec(s: Seq<u8>, sub: Seq<u8>) -> Option<usize> {
    if exists|i: int| occurs_at(s, sub, i) {
        Some((choose|i: int| occurs_at(s, sub, i) && forall|j: int| 0 <= j < i ==> !occurs_at(s, sub, j)) as usize)
    } else {
        None
    }
}

fn slices_equal(a: &[u8], b: &[u8]) -> (r: bool)
    ensures
        r == (a@ == b@),
{
    if a.len() != b.len() {
        return false;
    }
    let mut k: usize = 0;
    while k < a.len()
        invariant
            a@.len() == b@.len(),
            k <= a@.len(),
            forall|j: int| 0 <= j < k ==> a@[j] == b@[j],
        decreases a@.len() - k,
    {
        if a[k] != b[k] {
            return false;
        }
        k = k + 1;
    }
    assert(a@ =~= b@);
    true
}

/// First position of `sub` in `s`: `Some(0)` for an empty `sub`.
pub fn find_substring(s: &[u8], sub: &[u8]) -> (r: Option<usize>)
    ensures
        match r {
            Some(i) => occurs_at(s@, sub@, i as int) && forall|j: int|
                0 <= j < i ==> !occurs_at(s@, sub@, j),
            None => forall|j: int| !occurs_at(s@, sub@, j),
        },
{
    if sub.len() > s.len() {
        return None;
    }
    if sub.len() == 0 {
        assert(s@.subrange(0, 0) =~= sub@);
        return Some(0);
    }
    let first = sub[0];
    let rest = &sub[1..sub.len()];
    if rest.len() == 0 {
        let r = memchr(first, s);
        proof {
            match r {
                Some(i) => {
                    assert(s@.subrange(i as int, i + 1) =~= sub@);
                    assert forall|j: int| 0 <= j < i implies !occurs_at(s@, sub@, j) by {
                        if occurs_at(s@, sub@, j) {
                            assert(s@.subrange(j, j + 1)[0] == sub@[0]);
                        }
                    }
                },
                None => {
                    assert forall|j: int| !occurs_at(s@, sub@, j) by {
                        if occurs_at(s@, sub@, j) {
                            assert(s@.subrange(j, j + 1)[0] == sub@[0]);
                        }
                    }
                },
            }
        }
        return r;
    }
    let end = s.len() - rest.len();
    let haystack = &s[0..end];
    let mut offset: usize = 0;
    let total = s.len();
    while offset < end
        invariant
            total == s@.len(),
            end == s@.len() - rest@.len(),
            rest@ == sub@.subrange(1, sub@.len() as int),
            sub@.len() >= 2,
            first == sub@[0],
            haystack@ == s@.subrange(0, end as int),
            offset <= end,
            forall|j: int| 0 <= j < offset ==> !occurs_at(s@, sub@, j),
        decreases end - offset,
    {
        let window = &haystack[offset..end];
        match memchr(first, window) {
            None => {
                proof {
                    assert forall|j: int| 0 <= j < end implies !occurs_at(s@, sub@, j) by {
                        if j >= offset && occurs_at(s@, sub@, j) {
                            assert(s@.subrange(j, j + sub@.len())[0] == sub@[0]);
                            assert(window@[j - offset] == s@[j]);
                        }
                    }
                }
                offset = end;
            },
            Some(position) => {
                let pos = offset + position;
                let next = pos + 1;
                assert(next + rest@.len() <= s@.len());
                let candidate = &s[next..next + rest.len()];
                proof {
                    assert(window@[position as int] == s@[pos as int]);
                    assert forall|j: int| offset <= j < pos implies !occurs_at(s@, sub@, j) by {
                        if occurs_at(s@, sub@, j) {
                            assert(s@.subrange(j, j + sub@.len())[0] == sub@[0]);
                            assert(window@[j - offset] == s@[j]);
                        }
                    }
                }
                if slices_equal(candidate, rest) {
                    proof {
                        assert forall|k: int| 0 <= k < sub@.len() implies s@.subrange(
                            pos as int,
                            pos + sub@.len(),
                        )[k] == sub@[k] by {
                            if k > 0 {
                                assert(candidate@[k - 1] == rest@[k - 1]);
                            }
                        }
                        assert(s@.subrange(pos as int, pos + sub@.len()) =~= sub@);
                    }
                    return Some(pos);
                }
                proof {
                    if occurs_at(s@, sub@, pos as int) {
                        assert(s@.subrange(pos as int, pos + sub@.len()).subrange(
                            1,
                            sub@.len() as int,
                        ) =~= candidate@);
                        assert(sub@.subrange(1, sub@.len() as int) =~= rest@);
                    }
                }
                offset = next;
            },
        }
    }
    proof {
        assert forall|j: int| !occurs_at(s@, sub@, j) by {
            if j >= end {
                assert(j + sub@.len() > s@.len());
            }
        }
    }
    None
}

/// Compares `a` with the tag `t`, as a streaming parser does.
pub fn compare_bytes(a: &[u8], t: &[u8], no_case: bool) -> (r: CompareResult)
    ensures
        r == compare_spec(a@, t@, no_case),
{
    let m = if a.len() < t.len() {
        a.len()
    } else {
        t.len()
    };
    let mut k: usize = 0;
    while k < m
        invariant
            m == (if a@.len() < t@.len() { a@.len() } else { t@.len() }),
            k <= m,
            forall|j: int|
                0 <= j < k ==> !(if no_case {
                    lowercase(a@[j]) != lowercase(t@[j])
                } else {
                    a@[j] != t@[j]
                }),
        decreases m - k,
    {
        let differs = if no_case {
            lowercase_byte(a[k]) != lowercase_byte(t[k])
        } else {
            a[k] != t[k]
        };
        if differs {
            return CompareResult::Error;
        }
        k = k + 1;
    }
    if a.len() < t.len() {
        CompareResult::Incomplete
    } else {
        CompareResult::Matches
    }
}

/// A [Roll] that's also a valid utf-8 string.
pub struct RollStr {
    roll: Roll,
}

impl RollStr {
    pub closed spec fn roll(&self) -> Roll {
        self.roll
    }

    pub fn into_inner(self) -> (r: Roll)
        ensures
            r == self.roll(),
    {
        self.roll
    }

    /// The string, when the roll's bytes are (still) valid UTF-8.
    pub fn as_str<'a>(&'a self, pool: &'a BufPool) -> (r: &'a str)
        requires
            self.roll().wf(pool),
            vstd::utf8::valid_utf8(self.roll().bytes_spec(pool@)),
        ensures
            r.spec_bytes() == self.roll().bytes_spec(pool@),
    {
        let b = self.roll.bytes(pool);
        checked_str_of_valid_utf8(b)
    }
}

fn checked_str_of_valid_utf8(b: &[u8]) -> (r: &str)
    requires
        vstd::utf8::valid_utf8(b@),
    ensures
        r.spec_bytes() == b@,
{
    match str_from_utf8(b) {
        Ok(s) => {
            proof {
                vstd::utf8::decode_utf8_encode_utf8(b@);
            }
            s
        },
        Err(_) => {
            proof {
                assert(false);
            }
            ""
        },
    }
}

/// An iterator over the bytes of a [Roll]
pub struct RollIter {
    roll: Roll,
    pos: usize,
}

impl RollIter {
    pub closed spec fn roll(&self) -> Roll {
        self.roll
    }

    pub closed spec fn pos(&self) -> nat {
        self.pos as nat
    }

    /// The next byte, if any.
    pub fn next(&mut self, pool: &BufPool) -> (r: Option<u8>)
        requires
            old(self).roll().wf(pool),
        ensures
            final(self).roll() == old(self).roll(),
            old(self).pos() >= old(self).roll().spec_len() ==> r is None && final(self).pos()
                == old(self).pos(),
            old(self).pos() < old(self).roll().spec_len() ==> r == Some(
                old(self).roll().bytes_spec(pool@)[old(self).pos() as int],
            ) && final(self).pos() == old(self).pos() + 1,
    {
        if self.pos >= self.roll.len() {
            return None;
        }
        let c = self.roll.bytes(pool)[self.pos];
        self.pos = self.pos + 1;
        Some(c)
    }

    /// How many bytes are left, exactly.
    pub fn size_hint(&self) -> (r: (usize, Option<usize>))
        requires
            self.pos() <= self.roll().spec_len(),
        ensures
            r.0 == self.roll().spec_len() - self.pos() && r.1 == Some(r.0),
    {
        let remaining = self.roll.len() - self.pos;
        (remaining, Some(remaining))
    }

    /// The roll is given back.
    pub fn release(self, pool: &mut BufPool)
        requires
            self.roll().wf(old(pool)),
        ensures
            final(pool).wf(),
            final(pool)@ == match self.roll().buf_index() {
                Some(i) => pool_dec(old(pool)@, i),
                None => old(pool)@,
            },
    {
        self.roll.release(pool)
    }
}

impl Roll {
    /// An iterator over this roll's bytes; it holds its own handle to them.
    pub fn iter(&self, pool: &mut BufPool) -> (r: RollIter)
        requires
            self.wf(old(pool)),
            self.buf_index() matches Some(i) ==> old(pool)@.rc[i as int] < i16::MAX,
        ensures
            r.roll().wf(final(pool)),
            r.roll().bytes_spec(final(pool)@) == self.bytes_spec(old(pool)@),
            r.roll().spec_len() == self.spec_len(),
            r.pos() == 0,
            self.wf(final(pool)),
            final(pool)@ == match self.buf_index() {
                Some(i) => pool_inc(old(pool)@, i),
                None => old(pool)@,
            },
    {
        RollIter { roll: self.clone_in(pool), pos: 0 }
    }

    /// The bytes decoded as UTF-8, with invalid sequences replaced.
    pub fn to_string_lossy(&self, pool: &BufPool) -> (r: String)
        requires
            self.wf(pool),
        ensures
            r@ == utf8_lossy(self.bytes_spec(pool@)),
            vstd::utf8::valid_utf8(self.bytes_spec(pool@)) ==> r@ == vstd::utf8::decode_utf8(
                self.bytes_spec(pool@),
            ),
    {
        string_from_utf8_lossy(self.bytes(pool))
    }

    /// Decode as utf-8; when the bytes are not valid UTF-8, the roll is given back.
    pub fn to_string(self, pool: &mut BufPool) -> (r: Result<RollStr, std::str::Utf8Error>)
        requires
            self.wf(old(pool)),
        ensures
            final(pool).wf(),
            r is Ok <==> vstd::utf8::valid_utf8(self.bytes_spec(old(pool)@)),
            r matches Ok(rs) ==> rs.roll() == self && final(pool)@ == old(pool)@,
            r is Err ==> final(pool)@ == match self.buf_index() {
                Some(i) => pool_dec(old(pool)@, i),
                None => old(pool)@,
            },
    {
        let res = match str_from_utf8(self.bytes(pool)) {
            Ok(_) => Ok(()),
            Err(e) => Err(e),
        };
        match res {
            Ok(()) => Ok(RollStr { roll: self }),
            Err(e) => {
                self.release(pool);
                Err(e)
            },
        }
    }

    /// The first position of `substr` in this roll.
    pub fn find_substring(&self, pool: &BufPool, substr: &[u8]) -> (r: Option<usize>)
        requires
            self.wf(pool),
        ensures
            match r {
                Some(i) => occurs_at(self.bytes_spec(pool@), substr@, i as int) && forall|j: int|
                    0 <= j < i ==> !occurs_at(self.bytes_spec(pool@), substr@, j),
                None => forall|j: int| !occurs_at(self.bytes_spec(pool@), substr@, j),
            },
    {
        find_substring(self.bytes(pool), substr)
    }

    /// Compares the start of this roll with a tag.
    pub fn compare(&self, pool: &BufPool, t: &[u8]) -> (r: CompareResult)
        requires
            self.wf(pool),
        ensures
            r == compare_spec(self.bytes_spec(pool@), t@, false),
    {
        compare_bytes(self.bytes(pool), t, false)
    }

    /// Compares the start of this roll with a tag, ignoring ASCII case.
    pub fn compare_no_case(&self, pool: &BufPool, t: &[u8]) -> (r: CompareResult)
        requires
            self.wf(pool),
        ensures
            r == compare_spec(self.bytes_spec(pool@), t@, true),
    {
        compare_bytes(self.bytes(pool), t, true)
    }

    /// `Ok(count)` when the roll holds at least `count` bytes, else how many are missing.
    pub fn slice_index(&self, count: usize) -> (r: Result<usize, usize>)
        ensures
            self.spec_len() >= count ==> r == Ok::<usize, usize>(count),
            self.spec_len() < count ==> r == Err::<usize, usize>((count - self.spec_len()) as usize),
    {
        let len = self.len();
        if len >= count {
            Ok(count)
        } else {
            Err(count - len)
        }
    }
}

} // verus!
