//! Pieces of bytes to write out (whole, or a window of their storage), lists
//! of them, and serializing frame headers and payloads into rolls through a
//! scratch [RollMut].
use vstd::prelude::*;

use crate::bufpool::{BufPool, Error};
use crate::bytes::{be_bytes, lemma_be_bytes_len};
use crate::frame::{
    bit_and_u31_bytes, frame_bytes, frame_writable, goaway_bytes, priority_spec_bytes,
    setting_pairs_bytes, Frame, GoAway, PrioritySpec, RstStream, SettingPairs, WindowUpdate,
    law_setting_pairs_roundtrip,
};
use crate::roll::{Roll, RollMut};
use std::collections::VecDeque;
use std::rc::Rc;

verus! {

/// Something that can be written out as one roll.
pub trait IntoPiece: Sized {
    /// The bytes this value is written as.
    spec fn piece_bytes(&self) -> Seq<u8>;

    /// The value can be written (its fields are in range).
    spec fn piece_ok(&self) -> bool;

    /// Writes this value into the empty `scratch` buffer and takes it out as a roll.
    fn into_piece(self, pool: &mut BufPool, scratch: &mut RollMut) -> (r: Result<Roll, Error>)
        requires
            self.piece_ok(),
            old(scratch).wf(old(pool)),
            old(scratch).can_share(old(pool)),
            old(scratch).spec_len() == 0,
        ensures
            final(scratch).wf(final(pool)),
            final(scratch).spec_len() == 0,
            final(pool).size() == old(pool).size(),
            r matches Ok(roll) ==> roll.wf(final(pool)) && roll.bytes_spec(final(pool)@)
                == self.piece_bytes(),
            r is Err ==> (r matches Err(e) && e is OutOfMemory),
    ;
}

impl IntoPiece for Frame {
    open spec fn piece_bytes(&self) -> Seq<u8> {
        frame_bytes(*self)
    }

    open spec fn piece_ok(&self) -> bool {
        frame_writable(*self)
    }

    fn into_piece(self, pool: &mut BufPool, scratch: &mut RollMut) -> (r: Result<Roll, Error>) {
        let mut out: Vec<u8> = Vec::new();
        self.write_into(&mut out);
        proof {
            lemma_frame_bytes_len(self);
        }
        scratch.put_to_roll(pool, out.as_slice())
    }
}

proof fn lemma_frame_bytes_len(f: Frame)
    ensures
        frame_bytes(f).len() == 9,
{
    lemma_be_bytes_len(f.len as nat, 3);
    lemma_be_bytes_len(f.reserved as nat * 0x8000_0000 + f.stream_id.0 as nat, 4);
}

impl IntoPiece for PrioritySpec {
    open spec fn piece_bytes(&self) -> Seq<u8> {
        priority_spec_bytes(*self)
    }

    open spec fn piece_ok(&self) -> bool {
        self.stream_dependency.0 < 0x8000_0000
    }

    fn into_piece(self, pool: &mut BufPool, scratch: &mut RollMut) -> (r: Result<Roll, Error>) {
        let mut out: Vec<u8> = Vec::new();
        self.write_into(&mut out);
        proof {
            lemma_be_bytes_len(
                (if self.exclusive { 1nat } else { 0nat }) * 0x8000_0000 + self.stream_dependency.0 as nat,
                4,
            );
        }
        scratch.put_to_roll(pool, out.as_slice())
    }
}

impl IntoPiece for RstStream {
    open spec fn piece_bytes(&self) -> Seq<u8> {
        be_bytes(self.error_code.0 as nat, 4)
    }

    open spec fn piece_ok(&self) -> bool {
        true
    }

    fn into_piece(self, pool: &mut BufPool, scratch: &mut RollMut) -> (r: Result<Roll, Error>) {
        let mut out: Vec<u8> = Vec::new();
        self.write_into(&mut out);
        proof {
            lemma_be_bytes_len(self.error_code.0 as nat, 4);
        }
        scratch.put_to_roll(pool, out.as_slice())
    }
}

impl IntoPiece for WindowUpdate {
    open spec fn piece_bytes(&self) -> Seq<u8> {
        bit_and_u31_bytes(self.reserved, self.increment)
    }

    open spec fn piece_ok(&self) -> bool {
        self.reserved <= 1 && self.increment < 0x8000_0000
    }

    fn into_piece(self, pool: &mut BufPool, scratch: &mut RollMut) -> (r: Result<Roll, Error>) {
        let mut out: Vec<u8> = Vec::new();
        self.write_into(&mut out);
        proof {
            lemma_be_bytes_len(self.reserved as nat * 0x8000_0000 + self.increment as nat, 4);
        }
        scratch.put_to_roll(pool, out.as_slice())
    }
}

impl IntoPiece for GoAway {
    open spec fn piece_bytes(&self) -> Seq<u8> {
        goaway_bytes(self.last_stream_id.0, self.error_code.0, self.additional_debug_data@)
    }

    open spec fn piece_ok(&self) -> bool {
        self.additional_debug_data@.len() <= 0x3fff_0000
    }

    fn into_piece(self, pool: &mut BufPool, scratch: &mut RollMut) -> (r: Result<Roll, Error>) {
        let mut out: Vec<u8> = Vec::new();
        self.write_into(&mut out);
        proof {
            lemma_be_bytes_len(self.last_stream_id.0 as nat, 4);
            lemma_be_bytes_len(self.error_code.0 as nat, 4);
        }
        scratch.put_to_roll(pool, out.as_slice())
    }
}

impl<'a> IntoPiece for SettingPairs<'a> {
    open spec fn piece_bytes(&self) -> Seq<u8> {
        setting_pairs_bytes(self.0@)
    }

    open spec fn piece_ok(&self) -> bool {
        0 < self.0@.len() <= 0x0aaa_0000
    }

    fn into_piece(self, pool: &mut BufPool, scratch: &mut RollMut) -> (r: Result<Roll, Error>) {
        let mut out: Vec<u8> = Vec::new();
        self.write_into(&mut out);
        proof {
            law_setting_pairs_roundtrip(self.0@);
        }
        scratch.put_to_roll(pool, out.as_slice())
    }
}


/// Where the bytes of a piece live.
pub enum PieceCore {
    /// bytes that live for the whole program
    Static(&'static [u8]),
    /// a shared heap buffer
    Vec(Rc<Vec<u8>>),
    /// a roll, whose bytes may live in the buffer pool
    Roll(Roll),
}

/// How many bytes a storage holds.
pub open spec fn core_len(c: PieceCore) -> nat {
    match c {
        PieceCore::Static(s) => s@.len(),
        PieceCore::Vec(v) => v@.len(),
        PieceCore::Roll(r) => r.spec_len(),
    }
}

/// The bytes of a storage, with the pool as it is.
pub open spec fn core_bytes(c: PieceCore, pool: &BufPool) -> Seq<u8> {
    match c {
        PieceCore::Static(s) => s@,
        PieceCore::Vec(v) => v@,
        PieceCore::Roll(r) => r.bytes_spec(pool@),
    }
}

/// The storage can be read with the pool as it is.
pub open spec fn core_readable(c: PieceCore, pool: &BufPool) -> bool {
    match c {
        PieceCore::Roll(r) => r.wf(pool),
        _ => true,
    }
}

/// Some bytes to write: a whole storage, or a window of it.
pub enum Piece {
    Full { core: PieceCore },
    Slice { core: PieceCore, start: usize, len: usize },
}

impl Piece {
    /// A window lies within its storage.
    pub open spec fn wf(&self) -> bool {
        match self {
            Piece::Full { .. } => true,
            Piece::Slice { core, start, len } => *start + *len <= core_len(*core),
        }
    }

    pub open spec fn core_spec(&self) -> PieceCore {
        match self {
            Piece::Full { core } => *core,
            Piece::Slice { core, .. } => *core,
        }
    }

    pub open spec fn start_spec(&self) -> nat {
        match self {
            Piece::Full { .. } => 0,
            Piece::Slice { start, .. } => *start as nat,
        }
    }

    pub open spec fn len_spec(&self) -> nat {
        match self {
            Piece::Full { core } => core_len(*core),
            Piece::Slice { len, .. } => *len as nat,
        }
    }

    /// The bytes of the piece, with the pool as it is.
    pub open spec fn bytes_spec(&self, pool: &BufPool) -> Seq<u8> {
        match self {
            Piece::Full { core } => core_bytes(*core, pool),
            Piece::Slice { core, start, len } => core_bytes(*core, pool).subrange(
                *start as int,
                *start + *len,
            ),
        }
    }

    /// An empty piece.
    pub fn empty() -> (r: Piece)
        ensures
            r.wf(),
            r.len_spec() == 0,
    {
        let e: &'static [u8] = &[];
        Piece::Full { core: PieceCore::Static(e) }
    }

    /// How many bytes the piece holds.
    pub fn len(&self) -> (r: usize)
        ensures
            r == self.len_spec(),
    {
        match self {
            Piece::Full { core } => match core {
                PieceCore::Static(s) => s.len(),
                PieceCore::Vec(v) => v.len(),
                PieceCore::Roll(r) => r.len(),
            },
            Piece::Slice { len, .. } => *len,
        }
    }

    /// The bytes of the piece.
    pub fn bytes<'a>(&'a self, pool: &'a BufPool) -> (r: &'a [u8])
        requires
            self.wf(),
            core_readable(self.core_spec(), pool),
        ensures
            r@ == self.bytes_spec(pool),
    {
        let (core, start, len) = match self {
            Piece::Full { core } => (core, 0, self.len()),
            Piece::Slice { core, start, len } => (core, *start, *len),
        };
        let all: &[u8] = match core {
            PieceCore::Static(s) => *s,
            PieceCore::Vec(v) => v.as_slice(),
            PieceCore::Roll(r) => r.bytes(pool),
        };
        assert(all@ == core_bytes(self.core_spec(), pool));
        assert(all@.len() == core_len(self.core_spec()));
        assert(start + len <= all.len());
        let r = &all[start..start + len];
        proof {
            if self is Full {
                assert(all@.subrange(0, len as int) =~= all@);
            }
        }
        r
    }

    /// Whether the piece holds no byte.
    pub fn is_empty(&self) -> (r: bool)
        ensures
            r == (self.len_spec() == 0),
    {
        self.len() == 0
    }

    /// The piece without its first `m` bytes: a window of the same storage.
    pub fn trim_front(self, m: usize) -> (r: Piece)
        requires
            self.wf(),
            m <= self.len_spec(),
            core_len(self.core_spec()) <= usize::MAX,
        ensures
            r == trimmed(self, m as nat),
    {
        match self {
            Piece::Full { core } => {
                let clen: usize = match &core {
                    PieceCore::Static(s) => s.len(),
                    PieceCore::Vec(v) => v.len(),
                    PieceCore::Roll(r) => r.len(),
                };
                Piece::Slice { core, start: m, len: clen - m }
            },
            Piece::Slice { core, start, len } => Piece::Slice { core, start: start + m, len: len - m },
        }
    }

    /// Splits the piece in two at `middle`: both halves are windows of the
    /// same storage (which is shared, not copied).
    pub fn split_at(self, pool: &mut BufPool, middle: usize) -> (r: (Piece, Piece))
        requires
            self.wf(),
            middle <= self.len_spec(),
            core_readable(self.core_spec(), old(pool)),
            self.core_spec() matches PieceCore::Roll(roll) ==> (roll.buf_index() matches Some(i)
                ==> old(pool)@.rc[i as int] < i16::MAX),
        ensures
            r.0.wf(),
            r.1.wf(),
            r.0.len_spec() == middle,
            r.1.len_spec() == self.len_spec() - middle,
            core_readable(r.0.core_spec(), final(pool)),
            core_readable(r.1.core_spec(), final(pool)),
            core_len(self.core_spec()) == core_len(r.0.core_spec()),
            core_len(self.core_spec()) == core_len(r.1.core_spec()),
            core_bytes(r.0.core_spec(), final(pool)) == core_bytes(self.core_spec(), old(pool)),
            core_bytes(r.1.core_spec(), final(pool)) == core_bytes(self.core_spec(), old(pool)),
            r.0.start_spec() == self.start_spec(),
            r.1.start_spec() == self.start_spec() + middle,
    {
        let len = self.len();
        let start: usize = match &self {
            Piece::Full { .. } => 0,
            Piece::Slice { start, .. } => *start,
        };
        let core = match self {
            Piece::Full { core } => core,
            Piece::Slice { core, .. } => core,
        };
        let clen: usize = match &core {
            PieceCore::Static(s) => s.len(),
            PieceCore::Vec(v) => v.len(),
            PieceCore::Roll(r) => r.len(),
        };
        assert(start + middle <= clen);
        let copy = match &core {
            PieceCore::Static(s) => PieceCore::Static(*s),
            PieceCore::Vec(v) => PieceCore::Vec(Rc::clone(v)),
            PieceCore::Roll(r) => PieceCore::Roll(r.clone_in(pool)),
        };
        (
            Piece::Slice { core: copy, start, len: middle },
            Piece::Slice { core, start: start + middle, len: len - middle },
        )
    }
}

/// A piece without its first `m` bytes: the window moves on, over the same
/// storage.
pub open spec fn trimmed(p: Piece, m: nat) -> Piece {
    Piece::Slice {
        core: p.core_spec(),
        start: (p.start_spec() + m) as usize,
        len: (p.len_spec() - m) as usize,
    }
}

/// The pieces left once `n` bytes of them were written: the pieces written
/// whole are gone, and the one written in part keeps its unwritten bytes.
pub open spec fn advanced(p: Seq<Piece>, n: nat) -> Seq<Piece>
    decreases p.len(),
{
    if n == 0 || p.len() == 0 {
        p
    } else if n < p[0].len_spec() {
        seq![trimmed(p[0], n)] + p.drop_first()
    } else {
        advanced(p.drop_first(), (n - p[0].len_spec()) as nat)
    }
}

/// The bytes of the pieces, one after another.
pub open spec fn pieces_bytes(p: Seq<Piece>, pool: &BufPool) -> Seq<u8>
    decreases p.len(),
{
    if p.len() == 0 {
        Seq::empty()
    } else {
        p[0].bytes_spec(pool) + pieces_bytes(p.drop_first(), pool)
    }
}

/// A piece is a window of its storage, whose length fits a `usize`.
pub open spec fn piece_fits(p: Piece) -> bool {
    p.wf() && core_len(p.core_spec()) <= usize::MAX
}

pub open spec fn pieces_fit(p: Seq<Piece>) -> bool {
    forall|i: int| 0 <= i < p.len() ==> #[trigger] piece_fits(p[i])
}

/// Each piece is a window of its storage, whose bytes are all there.
pub open spec fn pieces_whole(p: Seq<Piece>, pool: &BufPool) -> bool {
    forall|i: int| 0 <= i < p.len() ==> #[trigger] piece_whole(p[i], pool)
}

/// The piece is a window of its storage, whose bytes are all there.
pub open spec fn piece_whole(p: Piece, pool: &BufPool) -> bool {
    &&& p.wf()
    &&& core_bytes(p.core_spec(), pool).len() == core_len(p.core_spec())
    &&& core_len(p.core_spec()) <= usize::MAX
}

proof fn lemma_pieces_len_front(p: Seq<Piece>)
    requires
        p.len() > 0,
    ensures
        pieces_len(p) == p[0].len_spec() + pieces_len(p.drop_first()),
    decreases p.len(),
{
    if p.len() > 1 {
        lemma_pieces_len_front(p.drop_last());
        assert(p.drop_last().drop_first() =~= p.drop_first().drop_last());
        assert(p.drop_last()[0] == p[0]);
        assert(p.drop_first().last() == p.last());
        assert(pieces_len(p) == pieces_len(p.drop_last()) + p.last().len_spec());
        assert(pieces_len(p.drop_first()) == pieces_len(p.drop_first().drop_last())
            + p.drop_first().last().len_spec());
    } else {
        assert(p.drop_first().len() == 0);
        assert(p.drop_last().len() == 0);
        assert(p.last() == p[0]);
        assert(pieces_len(p.drop_last()) == 0);
        assert(pieces_len(p.drop_first()) == 0);
        assert(pieces_len(p) == pieces_len(p.drop_last()) + p.last().len_spec());
    }
}

proof fn lemma_piece_bytes_len(p: Piece, pool: &BufPool)
    requires
        piece_whole(p, pool),
    ensures
        p.bytes_spec(pool).len() == p.len_spec(),
{
}

proof fn lemma_pieces_bytes_len(p: Seq<Piece>, pool: &BufPool)
    requires
        pieces_whole(p, pool),
    ensures
        pieces_bytes(p, pool).len() == pieces_len(p),
    decreases p.len(),
{
    if p.len() > 0 {
        assert(piece_whole(p[0], pool));
        lemma_piece_bytes_len(p[0], pool);
        assert(pieces_whole(p.drop_first(), pool)) by {
            assert forall|i: int| 0 <= i < p.drop_first().len() implies #[trigger] piece_whole(
                p.drop_first()[i],
                pool,
            ) by {
                assert(p.drop_first()[i] == p[i + 1]);
            }
        }
        lemma_pieces_bytes_len(p.drop_first(), pool);
        lemma_pieces_len_front(p);
    }
}

/// Once `n` of the bytes of some pieces were written, the pieces left hold
/// exactly the bytes that were not.
pub proof fn law_advance_leaves_unwritten(p: Seq<Piece>, n: nat, pool: &BufPool)
    requires
        pieces_whole(p, pool),
        n <= pieces_len(p),
    ensures
        pieces_bytes(advanced(p, n), pool) == pieces_bytes(p, pool).skip(n as int),
        pieces_len(advanced(p, n)) == pieces_len(p) - n,
    decreases p.len(),
{
    lemma_pieces_bytes_len(p, pool);
    if n == 0 || p.len() == 0 {
        assert(pieces_bytes(p, pool).skip(0) =~= pieces_bytes(p, pool));
    } else {
        let first = p[0];
        assert(piece_whole(first, pool));
        lemma_piece_bytes_len(first, pool);
        lemma_pieces_len_front(p);
        let rest = p.drop_first();
        assert(pieces_whole(rest, pool)) by {
            assert forall|i: int| 0 <= i < rest.len() implies #[trigger] piece_whole(rest[i], pool) by {
                assert(rest[i] == p[i + 1]);
            }
        }
        if n < first.len_spec() {
            let t = trimmed(first, n);
            assert(t.bytes_spec(pool) =~= first.bytes_spec(pool).skip(n as int));
            let q = seq![t] + rest;
            assert(q[0] == t);
            assert(q.drop_first() =~= rest);
            lemma_pieces_len_front(q);
            assert(pieces_bytes(q, pool) =~= pieces_bytes(p, pool).skip(n as int));
            assert(pieces_len(q) == pieces_len(p) - n) by {
                assert(pieces_len(q) == t.len_spec() + pieces_len(rest));
            }
        } else {
            law_advance_leaves_unwritten(rest, (n - first.len_spec()) as nat, pool);
            assert(pieces_bytes(p, pool).skip(n as int) =~= pieces_bytes(rest, pool).skip(
                n - first.len_spec(),
            ));
        }
    }
}

/// The bytes a split gives are the two halves of the bytes split.
pub proof fn law_split_at_halves(p: Piece, a: Piece, b: Piece, middle: nat, pool: &BufPool)
    requires
        p.wf(),
        a.wf(),
        b.wf(),
        middle <= p.len_spec(),
        core_bytes(p.core_spec(), pool).len() == core_len(p.core_spec()),
        core_bytes(a.core_spec(), pool) == core_bytes(p.core_spec(), pool),
        core_bytes(b.core_spec(), pool) == core_bytes(p.core_spec(), pool),
        a is Slice && b is Slice,
        a.start_spec() == p.start_spec() && a.len_spec() == middle,
        b.start_spec() == p.start_spec() + middle && b.len_spec() == p.len_spec() - middle,
    ensures
        a.bytes_spec(pool) == p.bytes_spec(pool).take(middle as int),
        b.bytes_spec(pool) == p.bytes_spec(pool).skip(middle as int),
        a.bytes_spec(pool) + b.bytes_spec(pool) == p.bytes_spec(pool),
{
    let cb = core_bytes(p.core_spec(), pool);
    assert(a.bytes_spec(pool) =~= p.bytes_spec(pool).take(middle as int));
    assert(b.bytes_spec(pool) =~= p.bytes_spec(pool).skip(middle as int));
    assert(a.bytes_spec(pool) + b.bytes_spec(pool) =~= p.bytes_spec(pool));
}

/// A write took no byte at all.
#[derive(Debug, Clone, Copy, PartialEq, Eq, Structural)]
pub struct WriteZero;

/// Advancing never lengthens a list.
proof fn lemma_advanced_len(p: Seq<Piece>, n: nat)
    requires
        n <= pieces_len(p),
    ensures
        pieces_len(advanced(p, n)) <= pieces_len(p),
    decreases p.len(),
{
    if n == 0 || p.len() == 0 {
    } else {
        lemma_pieces_len_front(p);
        if n < p[0].len_spec() {
            let q = seq![trimmed(p[0], n)] + p.drop_first();
            assert(q[0] == trimmed(p[0], n));
            assert(q.drop_first() =~= p.drop_first());
            lemma_pieces_len_front(q);
        } else {
            lemma_advanced_len(p.drop_first(), (n - p[0].len_spec()) as nat);
        }
    }
}

/// A list of pieces, suitable for one vectored write.
pub struct PieceList {
    pub pieces: VecDeque<Piece>,
}

/// The total length of some pieces.
pub open spec fn pieces_len(p: Seq<Piece>) -> nat
    decreases p.len(),
{
    if p.len() == 0 {
        0
    } else {
        pieces_len(p.drop_last()) + p.last().len_spec()
    }
}

impl PieceList {
    /// An empty list.
    pub fn new() -> (r: PieceList)
        ensures
            r.pieces@.len() == 0,
    {
        PieceList { pieces: VecDeque::new() }
    }

    /// A list of one piece.
    pub fn single(piece: Piece) -> (r: PieceList)
        ensures
            r.pieces@ == seq![piece],
    {
        let mut pieces = VecDeque::new();
        pieces.push_back(piece);
        assert(pieces@ =~= seq![piece]);
        PieceList { pieces }
    }

    /// Adds a piece at the back.
    pub fn push_back(&mut self, chunk: Piece)
        ensures
            final(self).pieces@ == old(self).pieces@.push(chunk),
    {
        self.pieces.push_back(chunk);
    }

    /// Adds a piece at the back.
    pub fn followed_by(self, chunk: Piece) -> (r: PieceList)
        ensures
            r.pieces@ == self.pieces@.push(chunk),
    {
        let mut this = self;
        this.push_back(chunk);
        this
    }

    /// Adds a piece at the front.
    pub fn push_front(&mut self, chunk: Piece)
        ensures
            final(self).pieces@ == seq![chunk] + old(self).pieces@,
    {
        self.pieces.push_front(chunk);
        assert(self.pieces@ =~= seq![chunk] + old(self).pieces@);
    }

    /// Adds a piece at the front.
    pub fn preceded_by(self, chunk: Piece) -> (r: PieceList)
        ensures
            r.pieces@ == seq![chunk] + self.pieces@,
    {
        let mut this = self;
        this.push_front(chunk);
        this
    }

    /// The total length of the pieces.
    pub fn len(&self) -> (r: usize)
        requires
            pieces_len(self.pieces@) <= usize::MAX,
        ensures
            r == pieces_len(self.pieces@),
    {
        let mut total: usize = 0;
        let mut k: usize = 0;
        while k < self.pieces.len()
            invariant
                k <= self.pieces@.len(),
                total == pieces_len(self.pieces@.subrange(0, k as int)),
                pieces_len(self.pieces@) <= usize::MAX,
            decreases self.pieces@.len() - k,
        {
            proof {
                let pre1 = self.pieces@.subrange(0, k + 1);
                assert(pre1.drop_last() =~= self.pieces@.subrange(0, k as int));
                lemma_pieces_len_prefix(self.pieces@, k + 1);
            }
            total = total + self.pieces[k].len();
            k = k + 1;
        }
        assert(self.pieces@.subrange(0, k as int) =~= self.pieces@);
        total
    }

    /// How many pieces there are.
    pub fn num_pieces(&self) -> (r: usize)
        ensures
            r == self.pieces@.len(),
    {
        self.pieces.len()
    }

    /// Whether there is no piece, or only empty ones.
    pub fn is_empty(&self) -> (r: bool)
        requires
            pieces_len(self.pieces@) <= usize::MAX,
        ensures
            r == (self.pieces@.len() == 0 || pieces_len(self.pieces@) == 0),
    {
        self.pieces.len() == 0 || self.len() == 0
    }

    /// Drops the first `n` bytes, once a write took them: the pieces written
    /// whole leave the list, and the one written in part keeps the rest.
    pub fn advance(&mut self, n: usize)
        requires
            n <= pieces_len(old(self).pieces@),
            pieces_fit(old(self).pieces@),
        ensures
            final(self).pieces@ == advanced(old(self).pieces@, n as nat),
    {
        let ghost target = advanced(self.pieces@, n as nat);
        let mut n = n;
        while n > 0
            invariant_except_break
                advanced(self.pieces@, n as nat) == target,
                n <= pieces_len(self.pieces@),
                pieces_fit(self.pieces@),
            ensures
                self.pieces@ == target,
            decreases self.pieces@.len(),
        {
            let ghost before = self.pieces@;
            proof {
                if before.len() == 0 {
                    assert(pieces_len(before) == 0);
                }
                lemma_pieces_len_front(before);
                assert(pieces_fit(before.drop_first())) by {
                    assert forall|i: int| 0 <= i < before.drop_first().len() implies #[trigger] piece_fits(
                        before.drop_first()[i],
                    ) by {
                        assert(before.drop_first()[i] == before[i + 1]);
                    }
                }
                assert(piece_fits(before[0]));
            }
            let front = match self.pieces.pop_front() {
                Some(p) => p,
                None => {
                    return;
                },
            };
            assert(self.pieces@ =~= before.drop_first());
            let len = front.len();
            if n < len {
                let t = front.trim_front(n);
                self.pieces.push_front(t);
                assert(self.pieces@ =~= seq![trimmed(before[0], n as nat)] + before.drop_first());
                assert(advanced(self.pieces@, 0) == self.pieces@);
                break;
            } else {
                n = n - len;
            }
        }
    }

    /// After a vectored write took `n` bytes of the list: no byte taken is
    /// a `WriteZero` error (nothing changes); otherwise the bytes taken
    /// leave the list, and the result says whether nothing is left to write.
    pub fn after_write(&mut self, n: usize) -> (r: Result<bool, WriteZero>)
        requires
            n <= pieces_len(old(self).pieces@),
            pieces_fit(old(self).pieces@),
            pieces_len(old(self).pieces@) <= usize::MAX,
        ensures
            n == 0 ==> r == Err::<bool, WriteZero>(WriteZero) && final(self).pieces@ == old(
                self,
            ).pieces@,
            n > 0 ==> final(self).pieces@ == advanced(old(self).pieces@, n as nat) && r == Ok::<
                bool,
                WriteZero,
            >(final(self).pieces@.len() == 0 || pieces_len(final(self).pieces@) == 0),
    {
        if n == 0 {
            return Err(WriteZero);
        }
        self.advance(n);
        proof {
            lemma_advanced_len(old(self).pieces@, n as nat);
        }
        Ok(self.is_empty())
    }

    /// Removes every piece.
    pub fn clear(&mut self)
        ensures
            final(self).pieces@.len() == 0,
    {
        self.pieces.clear();
    }

    /// The pieces, in order.
    pub fn into_vec_deque(self) -> (r: VecDeque<Piece>)
        ensures
            r@ == self.pieces@,
    {
        self.pieces
    }
}

proof fn lemma_pieces_len_prefix(p: Seq<Piece>, k: int)
    requires
        0 <= k <= p.len(),
    ensures
        pieces_len(p.subrange(0, k)) <= pieces_len(p),
    decreases p.len() - k,
{
    if k < p.len() {
        lemma_pieces_len_prefix(p, k + 1);
        assert(p.subrange(0, k + 1).drop_last() =~= p.subrange(0, k));
    } else {
        assert(p.subrange(0, k) =~= p);
    }
}

} // verus!
