//! What the conformance test harness is configured with.
use vstd::prelude::*;
use vstd::utf8::encode_utf8;

verus! {

/// Protocols the test harness can speak.
#[derive(Debug, Clone, Copy, PartialEq, Eq, Structural)]
pub enum Proto {
    /// plaintext HTTP/1.1
    H1,
    /// HTTP/2 with prior knowledge
    H2C,
    /// TLS with ALPN
    TLS,
}

/// The protocol a `PROTO` value names: `h1`, `h2c` or `tls`.
pub open spec fn proto_of(name: Seq<char>) -> Option<Proto> {
    if name == "h1"@ {
        Some(Proto::H1)
    } else if name == "h2c"@ {
        Some(Proto::H2C)
    } else if name == "tls"@ {
        Some(Proto::TLS)
    } else {
        None
    }
}

/// The protocol a `PROTO` value names, if any.
pub fn parse_proto(name: &str) -> (r: Option<Proto>)
    ensures
        r == proto_of(name@),
{
    let h1 = "h1";
    let h2c = "h2c";
    let tls = "tls";
    proof {
        reveal_strlit("h1");
        reveal_strlit("h2c");
        reveal_strlit("tls");
    }
    if str_eq(name, h1) {
        Some(Proto::H1)
    } else if str_eq(name, h2c) {
        Some(Proto::H2C)
    } else if str_eq(name, tls) {
        Some(Proto::TLS)
    } else {
        None
    }
}

fn str_eq(a: &str, b: &str) -> (r: bool)
    ensures
        r == (a@ == b@),
{
    let ab = a.as_bytes();
    let bb = b.as_bytes();
    proof {
        if a@ == b@ {
            assert(encode_utf8(a@) == encode_utf8(b@));
        }
    }
    if ab.len() != bb.len() {
        return false;
    }
    let mut k: usize = 0;
    while k < ab.len()
        invariant
            ab@ == encode_utf8(a@),
            bb@ == encode_utf8(b@),
            ab@.len() == bb@.len(),
            k <= ab@.len(),
            forall|j: int| 0 <= j < k ==> ab@[j] == bb@[j],
        decreases ab@.len() - k,
    {
        if ab[k] != bb[k] {
            proof {
                if a@ == b@ {
                    assert(encode_utf8(a@) == encode_utf8(b@));
                }
            }
            return false;
        }
        k = k + 1;
    }
    assert(ab@ =~= bb@);
    proof {
        vstd::utf8::encode_utf8_decode_utf8(a@);
        vstd::utf8::encode_utf8_decode_utf8(b@);
    }
    true
}

/// The characters of a text.
fn chars_of(s: &str) -> (r: Vec<char>)
    ensures
        r@ == s@,
{
    broadcast use vstd::string::axiom_spec_iter;
    let mut out: Vec<char> = Vec::new();
    for c in it: s.chars()
        invariant
            it.seq() == s@,
            out@ == it.seq().take(it.index() as int),
    {
        out.push(c);
    }
    out
}

/// `char::is_whitespace`: the characters with the Unicode `White_Space`
/// property.
pub open spec fn is_whitespace(c: char) -> bool {
    let u = c as u32;
    ||| 0x09 <= u <= 0x0d
    ||| u == 0x20
    ||| u == 0x85
    ||| u == 0xa0
    ||| u == 0x1680
    ||| 0x2000 <= u <= 0x200a
    ||| u == 0x2028
    ||| u == 0x2029
    ||| u == 0x202f
    ||| u == 0x205f
    ||| u == 0x3000
}

/// The text without its leading whitespace.
pub open spec fn skip_whitespace(s: Seq<char>) -> Seq<char>
    decreases s.len(),
{
    if s.len() > 0 && is_whitespace(s[0]) {
        skip_whitespace(s.drop_first())
    } else {
        s
    }
}

/// The characters before the first whitespace.
pub open spec fn word(s: Seq<char>) -> Seq<char>
    decreases s.len(),
{
    if s.len() == 0 || is_whitespace(s[0]) {
        Seq::empty()
    } else {
        seq![s[0]] + word(s.drop_first())
    }
}

/// The first whitespace-separated token, as `split_whitespace().next()`
/// gives it.
pub open spec fn first_token(s: Seq<char>) -> Option<Seq<char>> {
    let t = skip_whitespace(s);
    if t.len() == 0 {
        None
    } else {
        Some(word(t))
    }
}

/// What a server prints before its address once it listens: a globe, a fox
/// and a pointing hand.
pub open spec fn listen_line_prefix() -> Seq<char> {
    seq!['\u{1F30E}', '\u{1F98A}', '\u{1F449}']
}

/// A listen line without its prefix, that is no address.
#[derive(Debug, Clone, Copy, PartialEq, Eq, Structural)]
pub enum ListenLineError {
    /// nothing but whitespace follows the prefix
    NoAddressToken,
}

/// The address token of a line, if the line is a listen line.
pub open spec fn listen_line_of(line: Seq<char>) -> Result<Option<Seq<char>>, ListenLineError> {
    let p = listen_line_prefix();
    if line.len() >= 3 && line.take(3) == p {
        match first_token(line.skip(3)) {
            Some(t) => Ok(Some(t)),
            None => Err(ListenLineError::NoAddressToken),
        }
    } else {
        Ok(None)
    }
}

fn char_is_whitespace(c: char) -> (r: bool)
    ensures
        r == is_whitespace(c),
{
    let u = c as u32;
    (0x09 <= u && u <= 0x0d) || u == 0x20 || u == 0x85 || u == 0xa0 || u == 0x1680 || (0x2000 <= u
        && u <= 0x200a) || u == 0x2028 || u == 0x2029 || u == 0x202f || u == 0x205f || u == 0x3000
}

proof fn lemma_skip_whitespace_from(s: Seq<char>, k: int)
    requires
        0 <= k <= s.len(),
        forall|i: int| 0 <= i < k ==> is_whitespace(#[trigger] s[i]),
    ensures
        skip_whitespace(s) == skip_whitespace(s.skip(k)),
    decreases k,
{
    if k > 0 {
        lemma_skip_whitespace_from(s.drop_first(), k - 1);
        assert(s.drop_first().skip(k - 1) =~= s.skip(k));
    } else {
        assert(s.skip(0) =~= s);
    }
}

proof fn lemma_word_from(s: Seq<char>, k: int)
    requires
        0 <= k <= s.len(),
        forall|i: int| 0 <= i < k ==> !is_whitespace(#[trigger] s[i]),
    ensures
        word(s) == s.take(k) + word(s.skip(k)),
    decreases k,
{
    if k > 0 {
        lemma_word_from(s.drop_first(), k - 1);
        assert(s.drop_first().skip(k - 1) =~= s.skip(k));
        assert(seq![s[0]] + s.drop_first().take(k - 1) =~= s.take(k));
    } else {
        assert(s.skip(0) =~= s);
        assert(s.take(0) =~= Seq::<char>::empty());
    }
}

/// The address token of a listen line: the first word after the prefix;
/// `None` when the line is no listen line.
pub fn decode_listen_line(line: &str) -> (r: Result<Option<Vec<char>>, ListenLineError>)
    ensures
        match listen_line_of(line@) {
            Ok(None) => r == Ok::<Option<Vec<char>>, ListenLineError>(None),
            Ok(Some(t)) => r matches Ok(Some(v)) && v@ == t,
            Err(e) => r == Err::<Option<Vec<char>>, ListenLineError>(e),
        },
{
    let cs = chars_of(line);
    if !(cs.len() >= 3 && cs[0] == '\u{1F30E}' && cs[1] == '\u{1F98A}' && cs[2] == '\u{1F449}') {
        proof {
            if cs@.len() >= 3 && cs@.take(3) == listen_line_prefix() {
                assert(cs@.take(3)[0] == cs@[0]);
                assert(cs@.take(3)[1] == cs@[1]);
                assert(cs@.take(3)[2] == cs@[2]);
            }
        }
        return Ok(None);
    }
    assert(cs@.take(3) =~= listen_line_prefix());
    let ghost rest = cs@.skip(3);
    let mut k: usize = 3;
    while k < cs.len() && char_is_whitespace(cs[k])
        invariant
            3 <= k <= cs@.len(),
            rest == cs@.skip(3),
            forall|i: int| 0 <= i < k - 3 ==> is_whitespace(#[trigger] rest[i]),
        decreases cs@.len() - k,
    {
        k = k + 1;
    }
    proof {
        lemma_skip_whitespace_from(rest, k - 3);
        assert(rest.skip(k - 3) =~= cs@.skip(k as int));
    }
    if k == cs.len() {
        return Err(ListenLineError::NoAddressToken);
    }
    let ghost t = cs@.skip(k as int);
    let mut token: Vec<char> = Vec::new();
    let mut j: usize = k;
    while j < cs.len() && !char_is_whitespace(cs[j])
        invariant
            k <= j <= cs@.len(),
            t == cs@.skip(k as int),
            forall|i: int| 0 <= i < j - k ==> !is_whitespace(#[trigger] t[i]),
            token@ == t.take(j - k),
        decreases cs@.len() - j,
    {
        token.push(cs[j]);
        j = j + 1;
        assert(token@ =~= t.take(j - k));
    }
    proof {
        lemma_word_from(t, j - k);
        assert(t.skip(j - k) =~= cs@.skip(j as int));
        if j < cs@.len() {
            assert(word(cs@.skip(j as int)) =~= Seq::<char>::empty());
        } else {
            assert(cs@.skip(j as int) =~= Seq::<char>::empty());
        }
        assert(t.take(j - k) + Seq::<char>::empty() =~= t.take(j - k));
    }
    Ok(Some(token))
}

/// How a protocol is named in a listen line.
pub open spec fn proto_label(proto: Proto) -> Seq<char> {
    match proto {
        Proto::H1 => seq!['H', '1'],
        Proto::H2C => seq!['H', '2', 'C'],
        Proto::TLS => seq!['T', 'L', 'S'],
    }
}

/// The line a test server prints once it listens: the prefix, a space, the
/// address, and the protocol in parentheses.
pub open spec fn listen_line_text(addr: Seq<char>, proto: Proto) -> Seq<char> {
    listen_line_prefix() + seq![' '] + addr + seq![' ', '('] + proto_label(proto) + seq![')']
}

/// The listen line for an address and a protocol.
pub fn listen_line(addr: &str, proto: Proto) -> (r: Vec<char>)
    ensures
        r@ == listen_line_text(addr@, proto),
{
    let mut out: Vec<char> = Vec::new();
    out.push('\u{1F30E}');
    out.push('\u{1F98A}');
    out.push('\u{1F449}');
    out.push(' ');
    let cs = chars_of(addr);
    let ghost start = out@;
    let mut k: usize = 0;
    while k < cs.len()
        invariant
            k <= cs@.len(),
            out@ == start + cs@.take(k as int),
        decreases cs@.len() - k,
    {
        out.push(cs[k]);
        k = k + 1;
        assert(out@ =~= start + cs@.take(k as int));
    }
    assert(cs@.take(k as int) =~= cs@);
    out.push(' ');
    out.push('(');
    match proto {
        Proto::H1 => {
            out.push('H');
            out.push('1');
        },
        Proto::H2C => {
            out.push('H');
            out.push('2');
            out.push('C');
        },
        Proto::TLS => {
            out.push('T');
            out.push('L');
            out.push('S');
        },
    }
    out.push(')');
    assert(out@ =~= listen_line_text(addr@, proto));
    out
}

/// A listen line reads back as the address it was printed with, when the
/// address is a single word.
pub proof fn law_listen_line_roundtrip(addr: Seq<char>, proto: Proto)
    requires
        addr.len() > 0,
        forall|i: int| 0 <= i < addr.len() ==> !is_whitespace(#[trigger] addr[i]),
    ensures
        listen_line_of(listen_line_text(addr, proto)) == Ok::<Option<Seq<char>>, ListenLineError>(
            Some(addr),
        ),
{
    let line = listen_line_text(addr, proto);
    let tail = seq![' ', '('] + proto_label(proto) + seq![')'];
    assert(line.take(3) =~= listen_line_prefix());
    let rest = line.skip(3);
    assert(rest =~= seq![' '] + addr + tail);
    assert(is_whitespace(' '));
    assert(rest.drop_first() =~= addr + tail);
    assert(skip_whitespace(rest) == skip_whitespace(addr + tail));
    let t = addr + tail;
    assert(t[0] == addr[0]);
    assert(skip_whitespace(t) == t);
    assert forall|i: int| 0 <= i < addr.len() implies !is_whitespace(#[trigger] t[i]) by {
        assert(t[i] == addr[i]);
    }
    lemma_word_from(t, addr.len() as int);
    assert(t.take(addr.len() as int) =~= addr);
    assert(t.skip(addr.len() as int) =~= tail);
    assert(tail[0] == ' ');
    assert(word(tail) =~= Seq::<char>::empty());
    assert(addr + Seq::<char>::empty() =~= addr);
}

} // verus!
