//! Header compression for one connection: the HPACK decoder for the header
//! blocks the peer sends and the encoder for the responses we send.
use vstd::prelude::*;

use fluke_hpack::{Decoder, Encoder};

use crate::h2::H2ConnectionError;
use crate::headers::{join_fragments, joined, pairs_view};

verus! {

#[verifier::external_type_specification]
#[verifier::external_body]
pub struct ExHpackDecoder<'a>(Decoder<'a>);

#[verifier::external_type_specification]
#[verifier::external_body]
pub struct ExHpackEncoder<'a>(Encoder<'a>);

/// The entries of the dynamic table a `fluke_hpack` decoder keeps, newest
/// first.
pub uninterp spec fn decoder_table(d: Decoder<'static>) -> Seq<(Seq<u8>, Seq<u8>)>;

/// The limits a `fluke_hpack` decoder keeps: the dynamic table's maximum
/// size, and the largest size the peer may set it to (if any).
pub uninterp spec fn decoder_limits(d: Decoder<'static>) -> (nat, Option<nat>);

/// What `fluke_hpack::Decoder::decode` makes of a header block, from a
/// dynamic table and limits: the (name, value) pairs or its error (as debug
/// text), the dynamic table afterwards, and its maximum size afterwards.
pub uninterp spec fn hpack_decoding(
    table: Seq<(Seq<u8>, Seq<u8>)>,
    limits: (nat, Option<nat>),
    block: Seq<u8>,
) -> (Result<Seq<(Seq<u8>, Seq<u8>)>, Seq<char>>, Seq<(Seq<u8>, Seq<u8>)>, nat);

/// The entries of the dynamic table a `fluke_hpack` encoder keeps, newest
/// first.
pub uninterp spec fn encoder_table(e: Encoder<'static>) -> Seq<(Seq<u8>, Seq<u8>)>;

/// The maximum size of the dynamic table a `fluke_hpack` encoder keeps.
pub uninterp spec fn encoder_limit(e: Encoder<'static>) -> nat;

/// What `fluke_hpack::Encoder::encode` makes of a header list, from a
/// dynamic table and its maximum size: the block, and the dynamic table
/// afterwards.
pub uninterp spec fn hpack_encoding(
    table: Seq<(Seq<u8>, Seq<u8>)>,
    limit: nat,
    headers: Seq<(Seq<u8>, Seq<u8>)>,
) -> (Seq<u8>, Seq<(Seq<u8>, Seq<u8>)>);

/// The size of a dynamic table as HPACK counts it: each entry's name and
/// value, and 32 more.
pub open spec fn table_size(t: Seq<(Seq<u8>, Seq<u8>)>) -> nat
    decreases t.len(),
{
    if t.len() == 0 {
        0
    } else {
        table_size(t.drop_last()) + t.last().0.len() + t.last().1.len() + 32
    }
}

/// A dynamic table cut down to a maximum size: the oldest entries (last)
/// leave until it fits.
pub open spec fn evicted(t: Seq<(Seq<u8>, Seq<u8>)>, max: nat) -> Seq<(Seq<u8>, Seq<u8>)>
    decreases t.len(),
{
    if t.len() == 0 || table_size(t) <= max {
        t
    } else {
        evicted(t.drop_last(), max)
    }
}

/// `fluke_hpack::Decoder::new`: an empty dynamic table of at most 4096
/// bytes (its source builds `DynamicTable::new`), and no limit set for what
/// the peer may ask.
#[verifier::external_body]
fn decoder_new() -> (r: Decoder<'static>)
    ensures
        decoder_table(r) == Seq::<(Seq<u8>, Seq<u8>)>::empty(),
        decoder_limits(r) == (4096nat, None::<nat>),
{
    Decoder::new()
}

/// `fluke_hpack::Decoder::set_max_allowed_table_size`: bounds the dynamic
/// table size updates the peer may ask for; the table is untouched.
#[verifier::external_body]
fn decoder_set_max_allowed_table_size(d: &mut Decoder<'static>, size: usize)
    ensures
        decoder_table(*final(d)) == decoder_table(*old(d)),
        decoder_limits(*final(d)) == (decoder_limits(*old(d)).0, Some(size as nat)),
{
    d.set_max_allowed_table_size(size)
}

/// `fluke_hpack::Decoder::decode`: decodes one whole header block into
/// (name, value) pairs, in order, or fails with the decoder's error (given as
/// its debug text); the result and the decoder afterwards are named by
/// `hpack_decoding`. Its source unwraps the integer of a dynamic table size
/// update, so blocks where such an integer is cut short are left out. Of
/// every table, its source shows that an empty block (whose decoding loop
/// runs no turn) gives no pair and changes nothing.
#[verifier::external_body]
fn decoder_decode(d: &mut Decoder<'static>, block: &[u8]) -> (r: Result<
    Vec<(Vec<u8>, Vec<u8>)>,
    String,
>)
    requires
        size_updates_whole(block@),
    ensures
        ({
            let dec = hpack_decoding(decoder_table(*old(d)), decoder_limits(*old(d)), block@);
            match r {
                Ok(v) => dec.0 == Ok::<Seq<(Seq<u8>, Seq<u8>)>, Seq<char>>(pairs_view(v@)),
                Err(msg) => dec.0 == Err::<Seq<(Seq<u8>, Seq<u8>)>, Seq<char>>(msg@),
            }
        }),
        ({
            let dec = hpack_decoding(decoder_table(*old(d)), decoder_limits(*old(d)), block@);
            decoder_table(*final(d)) == dec.1 && decoder_limits(*final(d)) == (
                dec.2,
                decoder_limits(*old(d)).1,
            )
        }),
        block@.len() == 0 ==> r is Ok && r->Ok_0@.len() == 0 && decoder_table(*final(d))
            == decoder_table(*old(d)) && decoder_limits(*final(d)) == decoder_limits(*old(d)),
{
    match d.decode(block) {
        Ok(pairs) => Ok(pairs),
        Err(e) => Err(format!("{e:?}")),
    }
}

/// `fluke_hpack::Encoder::new`: an empty dynamic table of at most 4096
/// bytes (its source builds `DynamicTable::new`).
#[verifier::external_body]
fn encoder_new() -> (r: Encoder<'static>)
    ensures
        encoder_table(r) == Seq::<(Seq<u8>, Seq<u8>)>::empty(),
        encoder_limit(r) == 4096,
{
    Encoder::new()
}

/// `fluke_hpack::Encoder::set_max_table_size`: the size the peer allows for
/// our dynamic table; as its source shows, the oldest entries are evicted
/// until the table fits.
#[verifier::external_body]
fn encoder_set_max_table_size(e: &mut Encoder<'static>, size: usize)
    ensures
        encoder_limit(*final(e)) == size,
        encoder_table(*final(e)) == evicted(encoder_table(*old(e)), size as nat),
{
    e.set_max_table_size(size)
}

/// `fluke_hpack::Encoder::encode`: the header block for the given
/// (name, value) pairs, and the encoder's table afterwards, named by
/// `hpack_encoding`. Each pair takes at least one byte, so the block is not
/// empty when there are pairs.
#[verifier::external_body]
fn encoder_encode(e: &mut Encoder<'static>, headers: &Vec<(Vec<u8>, Vec<u8>)>) -> (r: Vec<u8>)
    ensures
        headers@.len() > 0 ==> r@.len() > 0,
        r@ == hpack_encoding(encoder_table(*old(e)), encoder_limit(*old(e)), pairs_view(headers@)).0,
        encoder_table(*final(e)) == hpack_encoding(
            encoder_table(*old(e)),
            encoder_limit(*old(e)),
            pairs_view(headers@),
        ).1,
        encoder_limit(*final(e)) == encoder_limit(*old(e)),
{
    e.encode(headers.iter().map(|h| (&h.0[..], &h.1[..])))
}

/// The header compression state of one connection.
pub struct HpackCodec {
    pub dec: Decoder<'static>,
    pub enc: Encoder<'static>,
}

/// The bytes `transfer-encoding`.
pub open spec fn transfer_encoding_name() -> Seq<u8> {
    seq![
        0x74u8, 0x72, 0x61, 0x6e, 0x73, 0x66, 0x65, 0x72, 0x2d, 0x65, 0x6e, 0x63, 0x6f, 0x64,
        0x69, 0x6e, 0x67,
    ]
}

/// The three decimal digits of a status code.
pub open spec fn status_digits(status: u16) -> Seq<u8> {
    seq![
        (0x30 + status / 100) as u8,
        (0x30 + (status / 10) % 10) as u8,
        (0x30 + status % 10) as u8,
    ]
}

/// The bytes `:status`.
pub open spec fn status_name() -> Seq<u8> {
    seq![0x3au8, 0x73, 0x74, 0x61, 0x74, 0x75, 0x73]
}

/// The headers, in order, without `transfer-encoding` (HTTP/2 has no
/// chunked transfer coding).
pub open spec fn without_transfer_encoding(hs: Seq<(Seq<u8>, Seq<u8>)>) -> Seq<
    (Seq<u8>, Seq<u8>),
>
    decreases hs.len(),
{
    if hs.len() == 0 {
        Seq::empty()
    } else if hs.last().0 == transfer_encoding_name() {
        without_transfer_encoding(hs.drop_last())
    } else {
        without_transfer_encoding(hs.drop_last()).push(hs.last())
    }
}

/// The headers of a response as HTTP/2 sends them: `:status` first, then
/// every header but `transfer-encoding`, in order.
pub open spec fn response_fields(status: u16, headers: Seq<(Seq<u8>, Seq<u8>)>) -> Seq<
    (Seq<u8>, Seq<u8>),
> {
    seq![(status_name(), status_digits(status))] + without_transfer_encoding(headers)
}

fn bytes_of(a: &[u8]) -> (r: Vec<u8>)
    ensures
        r@ == a@,
{
    let mut out: Vec<u8> = Vec::new();
    let mut k: usize = 0;
    while k < a.len()
        invariant
            k <= a@.len(),
            out@ == a@.subrange(0, k as int),
        decreases a@.len() - k,
    {
        out.push(a[k]);
        k = k + 1;
        assert(out@ =~= a@.subrange(0, k as int));
    }
    assert(a@.subrange(0, k as int) =~= a@);
    out
}

fn same_bytes(a: &[u8], b: &[u8]) -> (r: bool)
    ensures
        r == (a@ == b@),
{
    if a.len() != b.len() {
        return false;
    }
    let mut k: usize = 0;
    while k < a.len()
        invariant
            a@.len() == b@.len(),
            k <= a@.len(),
            forall|j: int| 0 <= j < k ==> a@[j] == b@[j],
        decreases a@.len() - k,
    {
        if a[k] != b[k] {
            return false;
        }
        k = k + 1;
    }
    assert(a@ =~= b@);
    true
}

/// The header list of a response: `:status` with the status code's three
/// digits, then the headers but `transfer-encoding`.
pub fn response_header_list(status: u16, headers: &Vec<(Vec<u8>, Vec<u8>)>) -> (r: Vec<
    (Vec<u8>, Vec<u8>),
>)
    requires
        100 <= status <= 999,
    ensures
        pairs_view(r@) == response_fields(status, pairs_view(headers@)),
{
    let name: [u8; 7] = [0x3a, 0x73, 0x74, 0x61, 0x74, 0x75, 0x73];
    let te: [u8; 17] = [
        0x74, 0x72, 0x61, 0x6e, 0x73, 0x66, 0x65, 0x72, 0x2d, 0x65, 0x6e, 0x63, 0x6f, 0x64, 0x69,
        0x6e, 0x67,
    ];
    proof {
        assert(name@ =~= status_name());
        assert(te@ =~= transfer_encoding_name());
    }
    let mut digits: Vec<u8> = Vec::new();
    digits.push((0x30 + status / 100) as u8);
    digits.push((0x30 + (status / 10) % 10) as u8);
    digits.push((0x30 + status % 10) as u8);
    assert(digits@ =~= status_digits(status));
    let mut out: Vec<(Vec<u8>, Vec<u8>)> = Vec::new();
    out.push((bytes_of(name.as_slice()), digits));
    let mut k: usize = 0;
    proof {
        assert(pairs_view(headers@).subrange(0, 0) =~= Seq::<(Seq<u8>, Seq<u8>)>::empty());
        assert(pairs_view(out@) =~= seq![(status_name(), status_digits(status))]
            + without_transfer_encoding(pairs_view(headers@).subrange(0, 0)));
    }
    while k < headers.len()
        invariant
            k <= headers@.len(),
            te@ == transfer_encoding_name(),
            pairs_view(out@) == seq![(status_name(), status_digits(status))]
                + without_transfer_encoding(pairs_view(headers@).subrange(0, k as int)),
        decreases headers@.len() - k,
    {
        let ghost pre = pairs_view(headers@).subrange(0, k as int);
        let ghost pre1 = pairs_view(headers@).subrange(0, k + 1);
        proof {
            assert(pre1.drop_last() =~= pre);
            assert(pre1.last() == (headers@[k as int].0@, headers@[k as int].1@));
        }
        let ghost before = out@;
        if !same_bytes(headers[k].0.as_slice(), te.as_slice()) {
            out.push((bytes_of(headers[k].0.as_slice()), bytes_of(headers[k].1.as_slice())));
            proof {
                assert(pairs_view(out@) =~= pairs_view(before).push(pre1.last()));
            }
        }
        k = k + 1;
    }
    proof {
        assert(pairs_view(headers@).subrange(0, k as int) =~= pairs_view(headers@));
    }
    out
}

/// What a decoding gives the connection: the pairs, or, when the decoder
/// failed, a compression error carrying its message.
pub fn compression_outcome(r: Result<Vec<(Vec<u8>, Vec<u8>)>, String>) -> (out: Result<
    Vec<(Vec<u8>, Vec<u8>)>,
    H2ConnectionError,
>)
    ensures
        match r {
            Ok(pairs) => out == Ok::<Vec<(Vec<u8>, Vec<u8>)>, H2ConnectionError>(pairs),
            Err(msg) => out == Err::<Vec<(Vec<u8>, Vec<u8>)>, H2ConnectionError>(
                H2ConnectionError::CompressionError(msg),
            ),
        },
{
    match r {
        Ok(pairs) => Ok(pairs),
        Err(msg) => Err(H2ConnectionError::CompressionError(msg)),
    }
}

/// What decoding a header block gives the connection, from the decoder as
/// it is: a compression error when a table size update is cut short (then
/// nothing is decoded), else the decoded pairs, or a compression error with
/// the decoder's message.
pub open spec fn block_decoding(d: Decoder<'static>, block: Seq<u8>) -> Result<
    Seq<(Seq<u8>, Seq<u8>)>,
    Option<Seq<char>>,
> {
    if !size_updates_whole(block) {
        Err(None)
    } else {
        match hpack_decoding(decoder_table(d), decoder_limits(d), block).0 {
            Ok(pairs) => Ok(pairs),
            Err(msg) => Err(Some(msg)),
        }
    }
}

/// The decoder after a header block: unchanged when the block was refused
/// before decoding.
pub open spec fn decoder_after(d: Decoder<'static>, d2: Decoder<'static>, block: Seq<u8>) -> bool {
    if !size_updates_whole(block) {
        d2 == d
    } else {
        let dec = hpack_decoding(decoder_table(d), decoder_limits(d), block);
        decoder_table(d2) == dec.1 && decoder_limits(d2) == (dec.2, decoder_limits(d).1)
    }
}

/// The message of the compression error for a cut-short table size update.
pub open spec fn truncated_size_update_message() -> Seq<char> {
    "dynamic table size update cut short"@
}

impl HpackCodec {
    /// The codecs of a new connection; the peer may not grow our decoder's
    /// dynamic table beyond the default 4096 bytes.
    pub fn new() -> (r: HpackCodec)
        ensures
            decoder_table(r.dec) == Seq::<(Seq<u8>, Seq<u8>)>::empty(),
            decoder_limits(r.dec) == (4096nat, Some(4096nat)),
            encoder_table(r.enc) == Seq::<(Seq<u8>, Seq<u8>)>::empty(),
            encoder_limit(r.enc) == 4096,
    {
        let mut dec = decoder_new();
        decoder_set_max_allowed_table_size(&mut dec, 4096);
        HpackCodec { dec, enc: encoder_new() }
    }

    /// Decodes a complete header block, given as the fragments its frames
    /// carried. A block whose table size update is cut short, or that the
    /// decoder refuses, is a compression error of the connection.
    pub fn decode_block(&mut self, fragments: &Vec<Vec<u8>>) -> (r: Result<
        Vec<(Vec<u8>, Vec<u8>)>,
        H2ConnectionError,
    >)
        ensures
            match block_decoding(old(self).dec, joined(fragments@)) {
                Ok(pairs) => r is Ok && pairs_view(r->Ok_0@) == pairs,
                Err(None) => r matches Err(e) && e matches H2ConnectionError::CompressionError(m)
                    && m@ == truncated_size_update_message(),
                Err(Some(msg)) => r matches Err(e) && e matches H2ConnectionError::CompressionError(
                    m,
                ) && m@ == msg,
            },
            decoder_after(old(self).dec, final(self).dec, joined(fragments@)),
            final(self).enc == old(self).enc,
            joined(fragments@).len() == 0 ==> r is Ok && r->Ok_0@.len() == 0,
    {
        let block = join_fragments(fragments);
        if !check_size_updates(block.as_slice()) {
            let m = "dynamic table size update cut short";
            return Err(H2ConnectionError::CompressionError(m.to_string()));
        }
        compression_outcome(decoder_decode(&mut self.dec, block.as_slice()))
    }

    /// Encodes the head of a response (`:status` and the headers but
    /// `transfer-encoding`) with the encoder as it is; the block is never
    /// empty, since it holds at least `:status`.
    pub fn encode_response(&mut self, status: u16, headers: &Vec<(Vec<u8>, Vec<u8>)>) -> (r: Vec<
        u8,
    >)
        requires
            100 <= status <= 999,
        ensures
            r@.len() > 0,
            r@ == hpack_encoding(
                encoder_table(old(self).enc),
                encoder_limit(old(self).enc),
                response_fields(status, pairs_view(headers@)),
            ).0,
            encoder_table(final(self).enc) == hpack_encoding(
                encoder_table(old(self).enc),
                encoder_limit(old(self).enc),
                response_fields(status, pairs_view(headers@)),
            ).1,
            encoder_limit(final(self).enc) == encoder_limit(old(self).enc),
            final(self).dec == old(self).dec,
    {
        let fields = response_header_list(status, headers);
        proof {
            assert(pairs_view(fields@).len() > 0);
        }
        encoder_encode(&mut self.enc, &fields)
    }

    /// The peer's limit for our dynamic table changed: the encoder keeps to
    /// it, evicting its oldest entries.
    pub fn set_encoder_max_table_size(&mut self, size: u32)
        ensures
            encoder_limit(final(self).enc) == size,
            encoder_table(final(self).enc) == evicted(encoder_table(old(self).enc), size as nat),
            final(self).dec == old(self).dec,
    {
        encoder_set_max_table_size(&mut self.enc, size as usize)
    }
}

/// The weight of the `j`-th continuation byte of an HPACK integer.
pub open spec fn int_weight(j: nat) -> nat {
    if j == 1 {
        1
    } else if j == 2 {
        128
    } else if j == 3 {
        16384
    } else {
        2097152
    }
}

/// The continuation bytes of an HPACK integer, from byte `j` on, with `acc`
/// read so far: the value and how many bytes the integer takes, or `None`
/// when the bytes end first or a fifth byte would still continue it.
pub open spec fn int_rest(b: Seq<u8>, j: nat, acc: nat) -> Option<(nat, nat)>
    decreases 5 - j,
{
    if j >= 5 || j >= b.len() {
        None
    } else {
        let v: nat = acc + ((b[j as int] & 127u8) as nat) * int_weight(j);
        if b[j as int] < 128 {
            Some((v, j + 1))
        } else if j + 1 >= 5 {
            None
        } else {
            int_rest(b, j + 1, v)
        }
    }
}

/// An HPACK integer at the start of `b`, with a prefix of the bits in
/// `mask` (RFC 7541, 5.1): its value and how many bytes it takes.
pub open spec fn int_decode(b: Seq<u8>, mask: u8) -> Option<(nat, nat)> {
    if b.len() == 0 {
        None
    } else {
        let v = b[0] & mask;
        if v < mask {
            Some((v as nat, 1))
        } else {
            int_rest(b, 1, v as nat)
        }
    }
}

proof fn lemma_int_rest_bounds(b: Seq<u8>, j: nat, acc: nat)
    requires
        j >= 1,
    ensures
        int_rest(b, j, acc) matches Some((_, c)) ==> j < c <= b.len(),
    decreases 5 - j,
{
    if !(j >= 5 || j >= b.len()) {
        let v: nat = acc + ((b[j as int] & 127u8) as nat) * int_weight(j);
        if !(b[j as int] < 128) && !(j + 1 >= 5) {
            lemma_int_rest_bounds(b, j + 1, v);
        }
    }
}

proof fn lemma_int_decode_bounds(b: Seq<u8>, mask: u8)
    ensures
        int_decode(b, mask) matches Some((_, c)) ==> 1 <= c <= b.len(),
{
    if b.len() > 0 {
        let v = b[0] & mask;
        if !(v < mask) {
            lemma_int_rest_bounds(b, 1, v as nat);
        }
    }
}

/// Where a string literal starting at `at` ends, if its length prefix is
/// whole and its bytes are there.
pub open spec fn string_end(b: Seq<u8>, at: nat) -> Option<nat> {
    if at > b.len() {
        None
    } else {
        match int_decode(b.skip(at as int), 127u8) {
            None => None,
            Some((len, c)) => if at + c + len > b.len() {
                None
            } else {
                Some(at + c + len)
            },
        }
    }
}

/// Where a literal field (name index with this prefix mask, then the name
/// when the index is 0, then the value) ends, if it is whole.
pub open spec fn literal_end(b: Seq<u8>, mask: u8) -> Option<nat> {
    match int_decode(b, mask) {
        None => None,
        Some((idx, c)) => {
            let after_name = if idx == 0 {
                string_end(b, c)
            } else {
                Some(c)
            };
            match after_name {
                None => None,
                Some(n) => string_end(b, n),
            }
        },
    }
}

/// Every dynamic table size update that the fields of a header block lead
/// to has a whole integer (at most five bytes). The fields are walked by
/// their encoded lengths alone; a field that cannot be walked ends the walk
/// (the decoder stops with an error there).
pub open spec fn size_updates_whole(b: Seq<u8>) -> bool
    decreases b.len(),
{
    if b.len() == 0 {
        true
    } else {
        let o = b[0];
        let next: Option<nat> = if o >= 128 {
            match int_decode(b, 127u8) {
                Some((_, c)) => Some(c),
                None => None,
            }
        } else if o >= 64 {
            literal_end(b, 63u8)
        } else if o >= 32 {
            match int_decode(b, 31u8) {
                Some((_, c)) => Some(c),
                None => None,
            }
        } else {
            literal_end(b, 15u8)
        };
        if 32 <= o < 64 && next is None {
            false
        } else {
            match next {
                None => true,
                Some(c) => if 1 <= c <= b.len() {
                    size_updates_whole(b.skip(c as int))
                } else {
                    true
                },
            }
        }
    }
}

fn int_decode_exec(b: &[u8], mask: u8) -> (r: Option<(usize, usize)>)
    requires
        mask == 127 || mask == 63 || mask == 31 || mask == 15,
    ensures
        match int_decode(b@, mask) {
            None => r is None,
            Some((v, c)) => r matches Some((rv, rc)) && rv == v && rc == c,
        },
{
    if b.len() == 0 {
        return None;
    }
    let v0 = b[0] & mask;
    if v0 < mask {
        return Some((v0 as usize, 1));
    }
    let mut acc: usize = v0 as usize;
    let mut j: usize = 1;
    assert(int_decode(b@, mask) == int_rest(b@, 1, v0 as nat));
    let b0 = b[0];
    assert(b0 & mask <= 127u8) by (bit_vector)
        requires
            mask == 127 || mask == 63 || mask == 31 || mask == 15,
    ;
    while j < 5
        invariant
            1 <= j <= 5,
            acc <= 255 * int_weight(j as nat),
            int_decode(b@, mask) == int_rest(b@, j as nat, acc as nat),
            b@.len() > 0,
        decreases 5 - j,
    {
        if j >= b.len() {
            return None;
        }
        let x = b[j];
        let w: usize = if j == 1 {
            1
        } else if j == 2 {
            128
        } else if j == 3 {
            16384
        } else {
            2097152
        };
        assert(x & 127u8 <= 127u8) by (bit_vector);
        assert(w == int_weight(j as nat));
        let xm = x & 127;
        assert(xm as usize * w <= 127 * w) by (nonlinear_arith)
            requires
                xm <= 127,
        ;
        let v = acc + xm as usize * w;
        assert(v == acc + ((b@[j as int] & 127u8) as nat) * int_weight(j as nat));
        assert(j + 1 < 5 ==> v <= 255 * int_weight((j + 1) as nat));
        if x < 128 {
            return Some((v, j + 1));
        }
        if j + 1 >= 5 {
            return None;
        }
        acc = v;
        j = j + 1;
    }
    None
}

fn string_end_exec(b: &[u8], at: usize) -> (r: Option<usize>)
    ensures
        match string_end(b@, at as nat) {
            None => r is None,
            Some(e) => r == Some(e as usize),
        },
{
    if at > b.len() {
        return None;
    }
    let (_, rest) = b.split_at(at);
    assert(rest@ =~= b@.skip(at as int));
    match int_decode_exec(rest, 127) {
        None => None,
        Some((len, c)) => {
            proof {
                lemma_int_decode_bounds(rest@, 127u8);
            }
            if len > b.len() - at - c {
                None
            } else {
                Some(at + c + len)
            }
        },
    }
}

fn literal_end_exec(b: &[u8], mask: u8) -> (r: Option<usize>)
    requires
        mask == 63 || mask == 15,
    ensures
        match literal_end(b@, mask) {
            None => r is None,
            Some(e) => r == Some(e as usize),
        },
{
    let _n = b.len();
    proof {
        lemma_int_decode_bounds(b@, mask);
    }
    match int_decode_exec(b, mask) {
        None => None,
        Some((idx, c)) => {
            let after_name = if idx == 0 {
                string_end_exec(b, c)
            } else {
                Some(c)
            };
            match after_name {
                None => None,
                Some(n) => string_end_exec(b, n),
            }
        },
    }
}

/// Whether every dynamic table size update of a header block has a whole
/// integer (see `size_updates_whole`).
pub fn check_size_updates(block: &[u8]) -> (r: bool)
    ensures
        r == size_updates_whole(block@),
{
    let mut pos: usize = 0;
    assert(block@.skip(0) =~= block@);
    while pos < block.len()
        invariant
            pos <= block@.len(),
            size_updates_whole(block@) == size_updates_whole(block@.skip(pos as int)),
        decreases block@.len() - pos,
    {
        let (_, rest) = block.split_at(pos);
        assert(rest@ =~= block@.skip(pos as int));
        let o = rest[0];
        let next: Option<usize> = if o >= 128 {
            match int_decode_exec(rest, 127) {
                Some((_, c)) => Some(c),
                None => None,
            }
        } else if o >= 64 {
            literal_end_exec(rest, 63)
        } else if o >= 32 {
            match int_decode_exec(rest, 31) {
                Some((_, c)) => Some(c),
                None => None,
            }
        } else {
            literal_end_exec(rest, 15)
        };
        if 32 <= o && o < 64 && next.is_none() {
            return false;
        }
        match next {
            None => {
                return true;
            },
            Some(c) => {
                if 1 <= c && c <= rest.len() {
                    assert(rest@.skip(c as int) =~= block@.skip(pos + c));
                    pos = pos + c;
                } else {
                    return true;
                }
            },
        }
    }
    assert(block@.skip(pos as int).len() == 0);
    true
}

} // verus!
