//! Byte strings: big-endian integer encoding, as used by the HTTP/2 wire
//! format, and splitting at a separator byte.
use vstd::prelude::*;

verus! {

/// The number a big-endian byte string stands for.
pub open spec fn be_value(s: Seq<u8>) -> nat
    decreases s.len(),
{
    if s.len() == 0 {
        0
    } else {
        be_value(s.drop_last()) * 256 + s.last() as nat
    }
}

/// The `n`-byte big-endian encoding of `v` (only meaningful when `v < 256^n`).
pub open spec fn be_bytes(v: nat, n: nat) -> Seq<u8>
    decreases n,
{
    if n == 0 {
        Seq::empty()
    } else {
        be_bytes(v / 256, (n - 1) as nat).push((v % 256) as u8)
    }
}

/// An encoding has as many bytes as asked for.
pub proof fn lemma_be_bytes_len(v: nat, n: nat)
    ensures
        be_bytes(v, n).len() == n,
    decreases n,
{
    if n > 0 {
        lemma_be_bytes_len(v / 256, (n - 1) as nat);
    }
}

pub open spec fn pow256(n: nat) -> nat
    decreases n,
{
    if n == 0 {
        1
    } else {
        256 * pow256((n - 1) as nat)
    }
}

/// Decoding an encoding gives the number back.
pub proof fn lemma_be_roundtrip(v: nat, n: nat)
    requires
        v < pow256(n),
    ensures
        be_bytes(v, n).len() == n,
        be_value(be_bytes(v, n)) == v,
    decreases n,
{
    if n > 0 {
        assert(v / 256 < pow256((n - 1) as nat)) by (nonlinear_arith)
            requires
                v < 256 * pow256((n - 1) as nat),
        ;
        lemma_be_roundtrip(v / 256, (n - 1) as nat);
        let s = be_bytes(v, n);
        assert(s.drop_last() =~= be_bytes(v / 256, (n - 1) as nat));
        assert(v == (v / 256) * 256 + v % 256) by (nonlinear_arith);
    }
}

/// Every `n`-byte string is the encoding of its value.
pub proof fn lemma_be_value_bound_and_encode(s: Seq<u8>)
    ensures
        be_value(s) < pow256(s.len()),
        be_bytes(be_value(s), s.len()) =~= s,
    decreases s.len(),
{
    if s.len() > 0 {
        let p = s.drop_last();
        lemma_be_value_bound_and_encode(p);
        let v = be_value(s);
        let pv = be_value(p);
        assert(v == pv * 256 + s.last() as nat);
        assert(v / 256 == pv && v % 256 == s.last() as nat) by (nonlinear_arith)
            requires
                v == pv * 256 + s.last() as nat,
                s.last() < 256,
        ;
        assert(v < pow256(s.len())) by (nonlinear_arith)
            requires
                v == pv * 256 + s.last() as nat,
                s.last() < 256,
                pv < pow256(p.len()),
                pow256(s.len()) == 256 * pow256(p.len()),
        ;
        assert(be_bytes(v, s.len()) =~= be_bytes(pv, p.len()).push(s.last()));
    }
}

pub proof fn lemma_pow256_values()
    ensures
        pow256(0) == 1,
        pow256(1) == 256,
        pow256(2) == 0x1_0000,
        pow256(3) == 0x100_0000,
        pow256(4) == 0x1_0000_0000,
{
    reveal_with_fuel(pow256, 5);
}

pub proof fn lemma_be_value_2(s: Seq<u8>)
    requires
        s.len() == 2,
    ensures
        be_value(s) == s[0] as nat * 0x100 + s[1] as nat,
{
    reveal_with_fuel(be_value, 3);
    assert(s.drop_last().drop_last() =~= Seq::<u8>::empty());
}

pub proof fn lemma_be_value_3(s: Seq<u8>)
    requires
        s.len() == 3,
    ensures
        be_value(s) == s[0] as nat * 0x1_0000 + s[1] as nat * 0x100 + s[2] as nat,
{
    reveal_with_fuel(be_value, 4);
    assert(s.drop_last().drop_last().drop_last() =~= Seq::<u8>::empty());
}

pub proof fn lemma_be_value_4(s: Seq<u8>)
    requires
        s.len() == 4,
    ensures
        be_value(s) == s[0] as nat * 0x100_0000 + s[1] as nat * 0x1_0000 + s[2] as nat * 0x100
            + s[3] as nat,
{
    reveal_with_fuel(be_value, 5);
    assert(s.drop_last().drop_last().drop_last().drop_last() =~= Seq::<u8>::empty());
}

/// Reads a big-endian u16 at `at`.
pub fn read_be_u16(s: &[u8], at: usize) -> (v: u16)
    requires
        at + 2 <= s@.len(),
    ensures
        v == be_value(s@.subrange(at as int, at + 2)),
{
    proof {
        lemma_be_value_2(s@.subrange(at as int, at + 2));
    }
    (s[at] as u16) * 256 + s[at + 1] as u16
}

/// Reads a big-endian 24-bit unsigned integer at `at`.
pub fn read_be_u24(s: &[u8], at: usize) -> (v: u32)
    requires
        at + 3 <= s@.len(),
    ensures
        v == be_value(s@.subrange(at as int, at + 3)),
        v < 0x100_0000,
{
    proof {
        lemma_be_value_3(s@.subrange(at as int, at + 3));
    }
    (s[at] as u32) * 0x1_0000 + (s[at + 1] as u32) * 0x100 + s[at + 2] as u32
}

/// Reads a big-endian u32 at `at`.
pub fn read_be_u32(s: &[u8], at: usize) -> (v: u32)
    requires
        at + 4 <= s@.len(),
    ensures
        v == be_value(s@.subrange(at as int, at + 4)),
{
    proof {
        lemma_be_value_4(s@.subrange(at as int, at + 4));
    }
    (s[at] as u32) * 0x100_0000 + (s[at + 1] as u32) * 0x1_0000 + (s[at + 2] as u32) * 0x100
        + s[at + 3] as u32
}

proof fn lemma_be_bytes_2(v: nat)
    ensures
        be_bytes(v, 2) =~= seq![((v / 0x100) % 256) as u8, (v % 256) as u8],
{
    reveal_with_fuel(be_bytes, 3);
}

proof fn lemma_be_bytes_3(v: nat)
    ensures
        be_bytes(v, 3) =~= seq![
            ((v / 0x1_0000) % 256) as u8,
            ((v / 0x100) % 256) as u8,
            (v % 256) as u8,
        ],
{
    reveal_with_fuel(be_bytes, 4);
    assert(v / 256 / 256 == v / 0x1_0000) by (nonlinear_arith);
}

proof fn lemma_be_bytes_4(v: nat)
    ensures
        be_bytes(v, 4) =~= seq![
            ((v / 0x100_0000) % 256) as u8,
            ((v / 0x1_0000) % 256) as u8,
            ((v / 0x100) % 256) as u8,
            (v % 256) as u8,
        ],
{
    reveal_with_fuel(be_bytes, 5);
    assert(v / 256 / 256 == v / 0x1_0000) by (nonlinear_arith);
    assert(v / 256 / 256 / 256 == v / 0x100_0000) by (nonlinear_arith);
}

/// Appends the big-endian encoding of `v` (2 bytes).
pub fn push_be_u16(out: &mut Vec<u8>, v: u16)
    ensures
        final(out)@ == old(out)@ + be_bytes(v as nat, 2),
{
    proof {
        lemma_be_bytes_2(v as nat);
        lemma_be_bytes_len(v as nat, 2);
    }
    out.push((v / 0x100) as u8);
    out.push((v % 0x100) as u8);
}

/// Appends the big-endian encoding of `v` (3 bytes). `v` must fit in 24 bits.
pub fn push_be_u24(out: &mut Vec<u8>, v: u32)
    requires
        v < 0x100_0000,
    ensures
        final(out)@ == old(out)@ + be_bytes(v as nat, 3),
{
    proof {
        lemma_be_bytes_3(v as nat);
        lemma_be_bytes_len(v as nat, 3);
    }
    out.push((v / 0x1_0000) as u8);
    out.push(((v / 0x100) % 0x100) as u8);
    out.push((v % 0x100) as u8);
}

/// Appends the big-endian encoding of `v` (4 bytes).
pub fn push_be_u32(out: &mut Vec<u8>, v: u32)
    ensures
        final(out)@ == old(out)@ + be_bytes(v as nat, 4),
{
    proof {
        lemma_be_bytes_4(v as nat);
        lemma_be_bytes_len(v as nat, 4);
    }
    out.push((v / 0x100_0000) as u8);
    out.push(((v / 0x1_0000) % 0x100) as u8);
    out.push(((v / 0x100) % 0x100) as u8);
    out.push((v % 0x100) as u8);
}

/// The pieces of `b` between the separators: one more than there are
/// separators, each possibly empty (as `split` gives them).
pub open spec fn split_on(b: Seq<u8>, sep: u8) -> Seq<Seq<u8>>
    decreases b.len(),
{
    if b.len() == 0 {
        seq![Seq::empty()]
    } else if b.last() == sep {
        split_on(b.drop_last(), sep).push(Seq::empty())
    } else {
        let s = split_on(b.drop_last(), sep);
        s.update(s.len() - 1, s.last().push(b.last()))
    }
}

pub proof fn lemma_split_on_nonempty(b: Seq<u8>, sep: u8)
    ensures
        split_on(b, sep).len() >= 1,
    decreases b.len(),
{
    if b.len() > 0 {
        lemma_split_on_nonempty(b.drop_last(), sep);
    }
}

/// The pieces of `b` between the separators.
pub fn split_bytes(b: &[u8], sep: u8) -> (r: Vec<Vec<u8>>)
    ensures
        r@.map_values(|p: Vec<u8>| p@) == split_on(b@, sep),
{
    let mut done: Vec<Vec<u8>> = Vec::new();
    let mut cur: Vec<u8> = Vec::new();
    let mut k: usize = 0;
    assert(b@.take(0) =~= Seq::<u8>::empty());
    assert(done@.map_values(|p: Vec<u8>| p@) =~= Seq::<Seq<u8>>::empty());
    while k < b.len()
        invariant
            k <= b@.len(),
            split_on(b@.take(k as int), sep).len() >= 1,
            done@.map_values(|p: Vec<u8>| p@) == split_on(b@.take(k as int), sep).drop_last(),
            cur@ == split_on(b@.take(k as int), sep).last(),
        decreases b@.len() - k,
    {
        let ghost pre = b@.take(k as int);
        let ghost post = b@.take(k + 1);
        assert(post.drop_last() =~= pre);
        assert(post.last() == b@[k as int]);
        proof {
            lemma_split_on_nonempty(post, sep);
        }
        if b[k] == sep {
            let ghost sp = split_on(pre, sep);
            let ghost old_done = done@;
            let ghost piece = cur@;
            done.push(cur);
            cur = Vec::new();
            assert(split_on(post, sep).drop_last() =~= sp);
            assert(old_done.map_values(|p: Vec<u8>| p@).len() == old_done.len());
            assert forall|i: int| 0 <= i < done@.len() implies #[trigger] done@[i]@ == sp[i] by {
                if i < old_done.len() {
                    assert(old_done.map_values(|p: Vec<u8>| p@)[i] == sp.drop_last()[i]);
                }
            }
            assert(done@.map_values(|p: Vec<u8>| p@) =~= split_on(post, sep).drop_last());
            assert(cur@ =~= split_on(post, sep).last());
        } else {
            cur.push(b[k]);
            assert(split_on(post, sep).drop_last() =~= split_on(pre, sep).drop_last());
        }
        k = k + 1;
    }
    assert(b@.take(k as int) =~= b@);
    let ghost sp = split_on(b@, sep);
    let ghost old_done = done@;
    done.push(cur);
    assert(old_done.map_values(|p: Vec<u8>| p@).len() == old_done.len());
    assert forall|i: int| 0 <= i < done@.len() implies #[trigger] done@[i]@ == sp[i] by {
        if i < old_done.len() {
            assert(old_done.map_values(|p: Vec<u8>| p@)[i] == sp.drop_last()[i]);
        }
    }
    assert(done@.map_values(|p: Vec<u8>| p@) =~= sp);
    done
}

} // verus!
