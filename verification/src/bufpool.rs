//! A pool of fixed-size (4 KiB) buffers, with a reference count per buffer.
//!
//! The pool's memory is one anonymous memory map, cut into `BUF_SIZE` slots.
//! A slot is free when its reference count is zero; free slots wait in a
//! queue, and allocation takes the oldest one. [BufMut] and [Buf] are handles
//! to a window of a slot; they hold one reference each.
use vstd::prelude::*;

use memmap2::MmapMut;

verus! {

#[verifier::external_type_specification]
#[verifier::external_body]
pub struct ExMmapMut(memmap2::MmapMut);

#[verifier::external_type_specification]
#[verifier::external_body]
pub struct ExIoError(std::io::Error);

/// The bytes that a memory map holds.
pub uninterp spec fn mmap_bytes(m: MmapMut) -> Seq<u8>;

/// `memmap2::MmapMut::map_anon`: maps `len` bytes of anonymous memory. The
/// contract claims only that a successful map is `len` bytes long; what the
/// bytes hold at first is left unsaid, as the crate does not document it.
#[verifier::external_body]
fn map_anon(len: usize) -> (r: std::result::Result<MmapMut, std::io::Error>)
    ensures
        r matches Ok(m) ==> mmap_bytes(m).len() == len,
{
    MmapMut::map_anon(len)
}

/// Reads a window of a memory map through `MmapMut`'s `Deref` to `[u8]`: the
/// contract claims the slice holds exactly the mapped bytes in that window.
#[verifier::external_body]
fn mmap_slice(m: &MmapMut, start: usize, end: usize) -> (r: &[u8])
    requires
        start <= end <= mmap_bytes(*m).len(),
    ensures
        r@ == mmap_bytes(*m).subrange(start as int, end as int),
{
    &m[start..end]
}

/// Copies `src` into a memory map at `at` through `MmapMut`'s `DerefMut` to
/// `[u8]`: the contract claims those bytes are replaced and no other byte changes.
#[verifier::external_body]
fn mmap_write(m: &mut MmapMut, at: usize, src: &[u8])
    requires
        at + src@.len() <= mmap_bytes(*old(m)).len(),
    ensures
        mmap_bytes(*final(m)) == mmap_bytes(*old(m)).subrange(0, at as int) + src@ + mmap_bytes(
            *old(m),
        ).subrange(at + src@.len(), mmap_bytes(*old(m)).len() as int),
{
    m[at..at + src.len()].copy_from_slice(src)
}

/// The size of a buffer, in bytes (4 KiB)
pub const BUF_SIZE: u16 = 4096;

/// The number of buffers that [initialize_allocator] sets up (256 MiB).
pub const DEFAULT_NUM_BUFS: u32 = 65536;

#[derive(Debug)]
pub enum Error {
    /// could not mmap buffer
    Mmap(std::io::Error),
    /// out of memory
    OutOfMemory,
    /// slice does not fit into this RollMut
    DoesNotFit,
}

pub type Result<T> = std::result::Result<T, Error>;

/// A buffer pool
pub struct BufPool {
    mem: MmapMut,
    free: std::collections::VecDeque<u32>,
    ref_counts: Vec<i16>,
    num_bufs: u32,
    next_box_id: u64,
}

/// What a pool holds: the queue of free slots, the reference count of each
/// slot, and the bytes of all slots one after the other.
pub struct PoolView {
    pub free: Seq<u32>,
    pub rc: Seq<i16>,
    pub mem: Seq<u8>,
    /// The identity that the next heap-allocated storage gets.
    pub next_box_id: u64,
}

/// A pool whose free queue holds, once each, exactly the slots that nobody holds.
pub open spec fn pool_wf(v: PoolView) -> bool {
    &&& v.mem.len() == v.rc.len() * 4096
    &&& v.mem.len() <= usize::MAX
    &&& v.rc.len() <= u32::MAX
    &&& forall|k: int| 0 <= k < v.free.len() ==> (#[trigger] v.free[k]) < v.rc.len()
    &&& v.free.no_duplicates()
    &&& forall|i: int|
        0 <= i < v.rc.len() ==> #[trigger] v.rc[i] >= 0 && (v.rc[i] == 0 <==> v.free.contains(
            i as u32,
        ))
}

/// Allocation: the oldest free slot gets one reference.
pub open spec fn pool_alloc(v: PoolView) -> (PoolView, Option<u32>) {
    if v.free.len() == 0 {
        (v, None)
    } else {
        let i = v.free[0];
        (
            PoolView {
                free: v.free.drop_first(),
                rc: v.rc.update(i as int, (v.rc[i as int] + 1) as i16),
                ..v
            },
            Some(i),
        )
    }
}

/// The identity after `id` (identities wrap around after `u64::MAX`).
pub open spec fn next_id(id: u64) -> u64 {
    if id == u64::MAX {
        0
    } else {
        (id + 1) as u64
    }
}

/// One more reference to slot `i`.
pub open spec fn pool_inc(v: PoolView, i: u32) -> PoolView {
    PoolView { rc: v.rc.update(i as int, (v.rc[i as int] + 1) as i16), ..v }
}

/// One reference fewer to slot `i`; at zero the slot joins the back of the free queue.
pub open spec fn pool_dec(v: PoolView, i: u32) -> PoolView {
    let rc = v.rc.update(i as int, (v.rc[i as int] - 1) as i16);
    if v.rc[i as int] - 1 == 0 {
        PoolView { rc, free: v.free.push(i), ..v }
    } else {
        PoolView { rc, ..v }
    }
}

/// The pool that initialization builds: every slot free, in index order.
pub open spec fn pool_fresh(num_bufs: nat, mem: Seq<u8>) -> PoolView {
    PoolView {
        free: Seq::new(num_bufs, |i: int| i as u32),
        rc: Seq::new(num_bufs, |i: int| 0i16),
        mem,
        next_box_id: 0,
    }
}

impl View for BufPool {
    type V = PoolView;

    closed spec fn view(&self) -> PoolView {
        PoolView {
            free: self.free@,
            rc: self.ref_counts@,
            mem: mmap_bytes(self.mem),
            next_box_id: self.next_box_id,
        }
    }
}

/// A mutable buffer: a window of one slot. Cannot be cloned, but can be written to
pub struct BufMut {
    pub index: u32,
    pub off: u16,
    pub len: u16,
}

/// A read-only buffer: a window of one slot. Can be cloned, but cannot be written to.
pub struct Buf {
    pub index: u32,
    pub off: u16,
    pub len: u16,
}

/// A window `(index, off, len)` that lies inside one slot of a pool with `n` slots.
pub open spec fn window_ok(index: u32, off: u16, len: u16, n: nat) -> bool {
    index < n && off + len <= 4096
}

/// The pool bytes that a window covers.
pub open spec fn window_bytes(v: PoolView, index: u32, off: u16, len: u16) -> Seq<u8> {
    v.mem.subrange(index * 4096 + off, index * 4096 + off + len)
}

impl BufPool {
    pub open spec fn wf(&self) -> bool {
        &&& pool_wf(self@)
        &&& self.counts_agree()
    }

    /// The recorded number of slots agrees with the reference counts.
    pub closed spec fn counts_agree(&self) -> bool {
        self.num_bufs == self@.rc.len()
    }

    /// The number of slots of this pool.
    pub open spec fn size(&self) -> nat {
        self@.rc.len()
    }

    /// The pool holds a reference for slot `index`.
    pub open spec fn holds(&self, index: u32) -> bool {
        index < self@.rc.len() && self@.rc[index as int] > 0
    }

    /// Initializes the allocator with the given number of buffers
    pub fn initialize_allocator_with_num_bufs(num_bufs: u32) -> (r: Result<BufPool>)
        requires
            num_bufs as nat * 4096 <= usize::MAX,
        ensures
            r matches Ok(p) ==> p.wf() && p.size() == num_bufs && p@ == pool_fresh(
                num_bufs as nat,
                p@.mem,
            ),
            r matches Err(e) ==> e is Mmap,
    {
        let mut free: std::collections::VecDeque<u32> = std::collections::VecDeque::new();
        let mut ref_counts: Vec<i16> = Vec::new();
        let mut k: u32 = 0;
        while k < num_bufs
            invariant
                k <= num_bufs,
                free@ == Seq::new(k as nat, |i: int| i as u32),
                ref_counts@ == Seq::new(k as nat, |i: int| 0i16),
            decreases num_bufs - k,
        {
            free.push_back(k);
            ref_counts.push(0);
            assert(free@ =~= Seq::new((k + 1) as nat, |i: int| i as u32));
            assert(ref_counts@ =~= Seq::new((k + 1) as nat, |i: int| 0i16));
            k = k + 1;
        }
        let alloc_len = num_bufs as usize * BUF_SIZE as usize;
        let mem = match map_anon(alloc_len) {
            Ok(m) => m,
            Err(e) => {
                return Err(Error::Mmap(e));
            },
        };
        let pool = BufPool { mem, free, ref_counts, num_bufs, next_box_id: 0 };
        proof {
            let v = pool@;
            assert forall|i: int| 0 <= i < v.rc.len() implies #[trigger] v.rc[i] >= 0 && (v.rc[i]
                == 0 <==> v.free.contains(i as u32)) by {
                assert(v.free[i] == i as u32);
            }
            assert forall|a: int, b: int|
                0 <= a < v.free.len() && 0 <= b < v.free.len() && a != b implies v.free[a]
                != v.free[b] by {}
        }
        Ok(pool)
    }

    /// Initialize the allocator with the default number of buffers (256 MiB).
    pub fn initialize_allocator() -> (r: Result<BufPool>)
        ensures
            r matches Ok(p) ==> p.wf() && p.size() == DEFAULT_NUM_BUFS && p@ == pool_fresh(
                DEFAULT_NUM_BUFS as nat,
                p@.mem,
            ),
            r matches Err(e) ==> e is Mmap,
    {
        BufPool::initialize_allocator_with_num_bufs(DEFAULT_NUM_BUFS)
    }

    /// Returns the number of free buffers in the pool
    pub fn num_free(&self) -> (r: usize)
        ensures
            r == self@.free.len(),
    {
        self.free.len()
    }

    /// Allocate a buffer: the oldest free slot, whole.
    pub fn allocate(&mut self) -> (r: Result<BufMut>)
        requires
            old(self).wf(),
        ensures
            final(self).wf(),
            final(self).size() == old(self).size(),
            (final(self)@, match r {
                Ok(b) => Some(b.index),
                Err(_) => None,
            }) == pool_alloc(old(self)@),
            r matches Ok(b) ==> b.off == 0 && b.len == 4096 && final(self).holds(b.index),
            r matches Err(e) ==> e is OutOfMemory,
    {
        proof {
            lemma_pop_front_keeps(self@);
        }
        match self.free.pop_front() {
            Some(index) => {
                let c = self.ref_counts[index as usize];
                self.ref_counts.set(index as usize, c + 1);
                Ok(BufMut { index, off: 0, len: BUF_SIZE })
            },
            None => Err(Error::OutOfMemory),
        }
    }

    /// Increment the reference count of the given buffer
    pub fn inc(&mut self, index: u32)
        requires
            old(self).wf(),
            old(self).holds(index),
            old(self)@.rc[index as int] < i16::MAX,
        ensures
            final(self).wf(),
            final(self).size() == old(self).size(),
            final(self)@ == pool_inc(old(self)@, index),
    {
        let c = self.ref_counts[index as usize];
        self.ref_counts.set(index as usize, c + 1);
        proof {
            let v = old(self)@;
            let w = self@;
            assert forall|i: int| 0 <= i < w.rc.len() implies #[trigger] w.rc[i] >= 0 && (w.rc[i]
                == 0 <==> w.free.contains(i as u32)) by {
                assert(v.rc[i] >= 0);
            }
        }
        assert(self@ =~= pool_inc(old(self)@, index));
    }

    /// Decrement the reference count of the given buffer.
    /// If the reference count reaches zero, the buffer is freed.
    pub fn dec(&mut self, index: u32)
        requires
            old(self).wf(),
            old(self).holds(index),
        ensures
            final(self).wf(),
            final(self).size() == old(self).size(),
            final(self)@ == pool_dec(old(self)@, index),
    {
        let c = self.ref_counts[index as usize];
        self.ref_counts.set(index as usize, c - 1);
        if c - 1 == 0 {
            self.free.push_back(index);
        }
        proof {
            let v = old(self)@;
            let w = self@;
            assert(!v.free.contains(index));
            assert forall|i: int| 0 <= i < w.rc.len() implies #[trigger] w.rc[i] >= 0 && (w.rc[i]
                == 0 <==> w.free.contains(i as u32)) by {
                assert(v.rc[i] >= 0);
                if c - 1 == 0 {
                    if i != index as int {
                        assert(w.free.contains(i as u32) ==> v.free.contains(i as u32) || i as u32
                            == index);
                        assert(v.free.contains(i as u32) ==> w.free.contains(i as u32)) by {
                            if v.free.contains(i as u32) {
                                let k = choose|k: int| 0 <= k < v.free.len() && v.free[k] == i as u32;
                                assert(w.free[k] == i as u32);
                            }
                        }
                    } else {
                        assert(w.free[w.free.len() - 1] == index);
                    }
                }
            }
            assert forall|k: int| 0 <= k < w.free.len() implies (#[trigger] w.free[k]) < w.rc.len() by {
                if k < v.free.len() {
                    assert(w.free[k] == v.free[k]);
                }
            }
            if c - 1 == 0 {
                assert forall|a: int, b: int|
                    0 <= a < w.free.len() && 0 <= b < w.free.len() && a != b implies w.free[a]
                    != w.free[b] by {
                    if a < v.free.len() && b < v.free.len() {
                    } else if a < v.free.len() {
                        assert(w.free[b] == index);
                        assert(v.free[a] != index);
                    } else if b < v.free.len() {
                        assert(w.free[a] == index);
                        assert(v.free[b] != index);
                    }
                }
            }
        }
        assert(self@ =~= pool_dec(old(self)@, index));
    }

    /// The bytes of a buffer.
    pub fn buf_bytes(&self, b: &Buf) -> (r: &[u8])
        requires
            self.wf(),
            window_ok(b.index, b.off, b.len, self.size()),
        ensures
            r@ == window_bytes(self@, b.index, b.off, b.len),
    {
        proof {
            lemma_window_fits(self@, b.index, b.off, b.len);
        }
        let start = b.index as usize * BUF_SIZE as usize + b.off as usize;
        mmap_slice(&self.mem, start, start + b.len as usize)
    }

    /// The bytes of a mutable buffer.
    pub fn buf_mut_bytes(&self, b: &BufMut) -> (r: &[u8])
        requires
            self.wf(),
            window_ok(b.index, b.off, b.len, self.size()),
        ensures
            r@ == window_bytes(self@, b.index, b.off, b.len),
    {
        proof {
            lemma_window_fits(self@, b.index, b.off, b.len);
        }
        let start = b.index as usize * BUF_SIZE as usize + b.off as usize;
        mmap_slice(&self.mem, start, start + b.len as usize)
    }

    /// Copies `src` into a mutable buffer, starting `at` bytes into it. Nothing
    /// else in the pool changes.
    pub fn write(&mut self, b: &BufMut, at: usize, src: &[u8])
        requires
            old(self).wf(),
            window_ok(b.index, b.off, b.len, old(self).size()),
            at + src@.len() <= b.len,
        ensures
            final(self).wf(),
            final(self).size() == old(self).size(),
            final(self)@.free == old(self)@.free,
            final(self)@.rc == old(self)@.rc,
            final(self)@.next_box_id == old(self)@.next_box_id,
            final(self)@.mem == old(self)@.mem.subrange(0, b.index * 4096 + b.off + at)
                + src@ + old(self)@.mem.subrange(
                b.index * 4096 + b.off + at + src@.len(),
                old(self)@.mem.len() as int,
            ),
    {
        let start = b.index as usize * BUF_SIZE as usize + b.off as usize + at;
        mmap_write(&mut self.mem, start, src);
    }

    /// A fresh identity for a heap-allocated storage.
    pub fn new_box_id(&mut self) -> (r: u64)
        requires
            old(self).wf(),
        ensures
            final(self).wf(),
            final(self).size() == old(self).size(),
            r == old(self)@.next_box_id,
            final(self)@ == (PoolView { next_box_id: next_id(r), ..old(self)@ }),
    {
        let r = self.next_box_id;
        self.next_box_id = if r == u64::MAX {
            0
        } else {
            r + 1
        };
        r
    }

    /// A mutable buffer is given back: its reference is dropped.
    pub fn release_buf_mut(&mut self, b: BufMut)
        requires
            old(self).wf(),
            old(self).holds(b.index),
        ensures
            final(self).wf(),
            final(self).size() == old(self).size(),
            final(self)@ == pool_dec(old(self)@, b.index),
    {
        self.dec(b.index);
    }

    /// A buffer is given back: its reference is dropped.
    pub fn release_buf(&mut self, b: Buf)
        requires
            old(self).wf(),
            old(self).holds(b.index),
        ensures
            final(self).wf(),
            final(self).size() == old(self).size(),
            final(self)@ == pool_dec(old(self)@, b.index),
    {
        self.dec(b.index);
    }
}

pub proof fn lemma_window_fits(v: PoolView, index: u32, off: u16, len: u16)
    requires
        pool_wf(v),
        window_ok(index, off, len, v.rc.len()),
    ensures
        index as nat * 4096 + off + len <= v.mem.len(),
{
    assert(index as nat * 4096 + off + len <= v.rc.len() * 4096) by (nonlinear_arith)
        requires
            index < v.rc.len(),
            off + len <= 4096,
    ;
}

proof fn lemma_pop_front_keeps(v: PoolView)
    requires
        pool_wf(v),
    ensures
        v.free.len() > 0 ==> pool_wf(pool_alloc(v).0),
        v.free.len() > 0 ==> v.rc[v.free[0] as int] == 0,
{
    if v.free.len() > 0 {
        let i = v.free[0];
        let w = pool_alloc(v).0;
        assert(v.free.contains(i));
        assert(v.rc[i as int] == 0);
        assert forall|k: int| 0 <= k < w.free.len() implies (#[trigger] w.free[k]) < w.rc.len() by {
            assert(w.free[k] == v.free[k + 1]);
        }
        assert forall|j: int| 0 <= j < w.rc.len() implies #[trigger] w.rc[j] >= 0 && (w.rc[j] == 0
            <==> w.free.contains(j as u32)) by {
            assert(v.rc[j] >= 0);
            if j == i as int {
                assert(!w.free.contains(i)) by {
                    if w.free.contains(i) {
                        let k = choose|k: int| 0 <= k < w.free.len() && w.free[k] == i;
                        assert(v.free[k + 1] == v.free[0]);
                    }
                }
            } else {
                if v.free.contains(j as u32) {
                    let k = choose|k: int| 0 <= k < v.free.len() && v.free[k] == j as u32;
                    assert(k != 0);
                    assert(w.free[k - 1] == j as u32);
                }
                if w.free.contains(j as u32) {
                    let k = choose|k: int| 0 <= k < w.free.len() && w.free[k] == j as u32;
                    assert(v.free[k + 1] == j as u32);
                }
            }
        }
        assert forall|a: int, b: int|
            0 <= a < w.free.len() && 0 <= b < w.free.len() && a != b implies w.free[a]
            != w.free[b] by {
            assert(w.free[a] == v.free[a + 1]);
            assert(w.free[b] == v.free[b + 1]);
        }
    }
}

impl BufMut {
    /// The window lies inside one slot.
    pub open spec fn wf(&self) -> bool {
        self.off + self.len <= 4096
    }

    /// Allocates a buffer from the pool.
    pub fn allocate(pool: &mut BufPool) -> (r: Result<BufMut>)
        requires
            old(pool).wf(),
        ensures
            final(pool).wf(),
            final(pool).size() == old(pool).size(),
            (final(pool)@, match r {
                Ok(b) => Some(b.index),
                Err(_) => None,
            }) == pool_alloc(old(pool)@),
            r matches Ok(b) ==> b.off == 0 && b.len == 4096 && final(pool).holds(b.index),
            r matches Err(e) ==> e is OutOfMemory,
    {
        pool.allocate()
    }

    pub fn len(&self) -> (r: usize)
        ensures
            r == self.len,
    {
        self.len as usize
    }

    pub fn is_empty(&self) -> (r: bool)
        ensures
            r == (self.len == 0),
    {
        self.len == 0
    }

    /// Turn this buffer immutable. The reference count doesn't change, but the
    /// immutable view can be cloned.
    pub fn freeze(self) -> (r: Buf)
        ensures
            r.index == self.index && r.off == self.off && r.len == self.len,
    {
        Buf { index: self.index, off: self.off, len: self.len }
    }

    /// Freeze the window `start..end` of this buffer; the frozen part holds a
    /// reference of its own. The caller must not write to that part anymore.
    pub fn freeze_slice(&self, pool: &mut BufPool, start: usize, end: usize) -> (r: Buf)
        requires
            self.wf(),
            old(pool).wf(),
            old(pool).holds(self.index),
            old(pool)@.rc[self.index as int] < i16::MAX,
            start <= end <= self.len,
        ensures
            final(pool).wf(),
            final(pool).size() == old(pool).size(),
            final(pool)@ == pool_inc(old(pool)@, self.index),
            r.index == self.index && r.off == self.off + start && r.len == end - start,
    {
        pool.inc(self.index);
        Buf { index: self.index, off: self.off + start as u16, len: (end - start) as u16 }
    }

    /// Split this buffer in twain. Both parts can be written to, and each
    /// holds a reference.
    pub fn split_at(self, pool: &mut BufPool, at: usize) -> (r: (BufMut, BufMut))
        requires
            self.wf(),
            old(pool).wf(),
            old(pool).holds(self.index),
            old(pool)@.rc[self.index as int] < i16::MAX,
            at <= self.len,
        ensures
            final(pool).wf(),
            final(pool).size() == old(pool).size(),
            final(pool)@ == pool_inc(old(pool)@, self.index),
            r.0.index == self.index && r.0.off == self.off && r.0.len == at,
            r.1.index == self.index && r.1.off == self.off + at && r.1.len == self.len - at,
    {
        let left = BufMut { index: self.index, off: self.off, len: at as u16 };
        let right = BufMut {
            index: self.index,
            off: self.off + at as u16,
            len: self.len - at as u16,
        };
        pool.inc(left.index);
        (left, right)
    }

    /// Skip over the first `n` bytes
    pub fn skip(&mut self, n: usize)
        requires
            old(self).wf(),
            n <= old(self).len,
        ensures
            final(self).index == old(self).index,
            final(self).off == old(self).off + n,
            final(self).len == old(self).len - n,
    {
        let u16_n = n as u16;
        self.off = self.off + u16_n;
        self.len = self.len - u16_n;
    }
}

impl Buf {
    /// The window lies inside one slot.
    pub open spec fn wf(&self) -> bool {
        self.off + self.len <= 4096
    }

    pub fn len(&self) -> (r: usize)
        ensures
            r == self.len,
    {
        self.len as usize
    }

    pub fn is_empty(&self) -> (r: bool)
        ensures
            r == (self.len == 0),
    {
        self.len == 0
    }

    /// Take an owned slice `start..end` of this
    pub fn slice(self, start: usize, end: usize) -> (r: Buf)
        requires
            self.wf(),
            start <= end <= self.len,
        ensures
            r.index == self.index && r.off == self.off + start && r.len == end - start,
    {
        Buf { index: self.index, off: self.off + start as u16, len: (end - start) as u16 }
    }

    /// Split this buffer in twain; each part holds a reference.
    pub fn split_at(self, pool: &mut BufPool, at: usize) -> (r: (Buf, Buf))
        requires
            self.wf(),
            old(pool).wf(),
            old(pool).holds(self.index),
            old(pool)@.rc[self.index as int] < i16::MAX,
            at <= self.len,
        ensures
            final(pool).wf(),
            final(pool).size() == old(pool).size(),
            final(pool)@ == pool_inc(old(pool)@, self.index),
            r.0.index == self.index && r.0.off == self.off && r.0.len == at,
            r.1.index == self.index && r.1.off == self.off + at && r.1.len == self.len - at,
    {
        let left = Buf { index: self.index, off: self.off, len: at as u16 };
        let right = Buf { index: self.index, off: self.off + at as u16, len: self.len - at as u16 };
        pool.inc(left.index);
        (left, right)
    }

    /// Another handle to the same window; it holds a reference of its own.
    pub fn clone_in(&self, pool: &mut BufPool) -> (r: Buf)
        requires
            old(pool).wf(),
            old(pool).holds(self.index),
            old(pool)@.rc[self.index as int] < i16::MAX,
        ensures
            final(pool).wf(),
            final(pool).size() == old(pool).size(),
            final(pool)@ == pool_inc(old(pool)@, self.index),
            r.index == self.index && r.off == self.off && r.len == self.len,
    {
        pool.inc(self.index);
        Buf { index: self.index, off: self.off, len: self.len }
    }
}

/// Allocating a buffer and giving it back leaves as many free buffers and the
/// same reference counts as before; the allocated slot was not in use.
pub proof fn law_alloc_then_release(v: PoolView)
    requires
        pool_wf(v),
        v.free.len() > 0,
    ensures
        ({
            let (w, i) = pool_alloc(v);
            &&& i matches Some(i) && v.rc[i as int] == 0 && w.rc[i as int] == 1
            &&& pool_dec(w, i.unwrap()).free.len() == v.free.len()
            &&& pool_dec(w, i.unwrap()).rc == v.rc
            &&& w.free.len() == v.free.len() - 1
        }),
{
    lemma_pop_front_keeps(v);
    let (w, i) = pool_alloc(v);
    assert(pool_dec(w, i.unwrap()).rc =~= v.rc);
}

/// Every operation keeps the pool well formed: the free queue holds, once
/// each, exactly the slots with no reference.
pub proof fn law_pool_ops_keep_wf(v: PoolView, i: u32)
    requires
        pool_wf(v),
        i < v.rc.len(),
    ensures
        pool_wf(pool_alloc(v).0),
        v.rc[i as int] > 0 && v.rc[i as int] < i16::MAX ==> pool_wf(pool_inc(v, i)),
{
    lemma_pop_front_keeps(v);
    if v.rc[i as int] > 0 && v.rc[i as int] < i16::MAX {
        let w = pool_inc(v, i);
        assert forall|j: int| 0 <= j < w.rc.len() implies #[trigger] w.rc[j] >= 0 && (w.rc[j] == 0
            <==> w.free.contains(j as u32)) by {
            assert(v.rc[j] >= 0);
        }
    }
}

} // verus!
