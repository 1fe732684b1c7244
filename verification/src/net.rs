//! Networking rules shared by client and server: the version header and
//! length-prefixed message framing, certificate fingerprints and their text
//! form, and the trust-on-first-use `known_hosts` and saved-login stores.

use vstd::prelude::*;

use sha2::{Digest, Sha256};

use crate::protocol::PROTOCOL_VERSION;
use crate::text::{from_chars, split_chars, split_on, to_chars};

verus! {

/// Largest frame we will read, as a guard against bad/hostile peers.
pub const MAX_FRAME: usize = 16 * 1024 * 1024;

/// QUIC application close code the server uses to reject a version-skewed peer.
pub const VERSION_MISMATCH_CLOSE: u32 = 1;

// --- Little-endian words ---------------------------------------------------------

/// The value of four little-endian bytes.
pub open spec fn le_value(b: Seq<u8>) -> int {
    b[0] as int + 256 * (b[1] as int) + 65536 * (b[2] as int) + 16777216 * (b[3] as int)
}

/// `v` as four little-endian bytes.
pub open spec fn le_bytes(v: u32) -> Seq<u8> {
    seq![(v % 256) as u8, ((v / 256) % 256) as u8, ((v / 65536) % 256) as u8, (v / 16777216) as u8]
}

/// The little-endian bytes of `v` hold the value `v`.
pub proof fn lemma_le_bytes_value(v: u32)
    ensures
        le_value(le_bytes(v)) == v,
{
    assert(v == (v % 256) + 256 * ((v / 256) % 256) + 65536 * ((v / 65536) % 256) + 16777216 * (v / 16777216)) by (nonlinear_arith);
}

/// Four bytes holding the value `v` are the little-endian bytes of `v`.
pub proof fn lemma_le_bytes_unique(v: u32, b: Seq<u8>)
    requires
        b.len() == 4,
        le_value(b) == v,
    ensures
        b == le_bytes(v),
{
    let (b0, b1, b2, b3) = (b[0] as int, b[1] as int, b[2] as int, b[3] as int);
    assert(b0 == v % 256 && b1 == (v / 256) % 256 && b2 == (v / 65536) % 256 && b3 == v / 16777216) by (nonlinear_arith)
        requires
            0 <= b0 < 256, 0 <= b1 < 256, 0 <= b2 < 256, 0 <= b3 < 256,
            v == b0 + 256 * b1 + 65536 * b2 + 16777216 * b3,
    ;
    assert(b =~= le_bytes(v));
}

/// `v` as four little-endian bytes.
pub fn u32_to_le(v: u32) -> (r: [u8; 4])
    ensures
        le_value(r@) == v,
        r@ == le_bytes(v),
{
    let b0 = (v % 256) as u8;
    let b1 = ((v / 256) % 256) as u8;
    let b2 = ((v / 65536) % 256) as u8;
    let b3 = (v / 16777216) as u8;
    proof {
        assert(v == (v % 256) + 256 * ((v / 256) % 256) + 65536 * ((v / 65536) % 256) + 16777216 * (v / 16777216)) by (nonlinear_arith);
    }
    [b0, b1, b2, b3]
}

/// The `u32` held in four little-endian bytes.
pub fn u32_from_le(b: [u8; 4]) -> (r: u32)
    ensures
        r == le_value(b@),
{
    b[0] as u32 + 256 * (b[1] as u32) + 65536 * (b[2] as u32) + 16777216 * (b[3] as u32)
}

/// The fixed 4-byte header that opens every connection: `PROTOCOL_VERSION`,
/// little-endian.
pub fn version_header() -> (r: [u8; 4])
    ensures
        le_value(r@) == PROTOCOL_VERSION,
{
    u32_to_le(PROTOCOL_VERSION)
}

/// The peer's protocol version read from its 4-byte header.
pub fn read_version_header(header: [u8; 4]) -> (r: u32)
    ensures
        r == le_value(header@),
{
    u32_from_le(header)
}

// --- Framing -------------------------------------------------------------------------

/// A frame announced a length above `MAX_FRAME`.
#[derive(Debug, Clone, Copy, PartialEq, Eq)]
pub struct FrameTooLarge {
    pub len: u32,
}

/// A message frame: its 4-byte little-endian length, then the payload. The
/// length is written as a `u32` (`as u32`), so a payload of 4 GiB or more
/// announces its length cut to 32 bits.
pub fn frame_message(payload: &[u8]) -> (r: Vec<u8>)
    ensures
        r@.len() == 4 + payload@.len(),
        le_value(r@.take(4)) == payload@.len() as u32,
        payload@.len() <= u32::MAX ==> le_value(r@.take(4)) == payload@.len(),
        r@.skip(4) == payload@,
{
    let header = u32_to_le(payload.len() as u32);
    let mut out: Vec<u8> = Vec::new();
    out.push(header[0]);
    out.push(header[1]);
    out.push(header[2]);
    out.push(header[3]);
    let mut i: usize = 0;
    while i < payload.len()
        invariant
            i <= payload@.len(),
            out@.len() == 4 + i,
            out@.take(4) == header@,
            out@.skip(4) == payload@.take(i as int),
        decreases payload@.len() - i,
    {
        out.push(payload[i]);
        i += 1;
        assert(out@.take(4) =~= header@);
        assert(out@.skip(4) =~= payload@.take(i as int));
    }
    assert(payload@.take(i as int) =~= payload@);
    assert(out@.take(4) =~= header@);
    out
}

/// The payload length a frame header announces, or an error when it exceeds
/// `MAX_FRAME`.
pub fn frame_length(header: [u8; 4]) -> (r: Result<usize, FrameTooLarge>)
    ensures
        le_value(header@) <= MAX_FRAME ==> r == Ok::<usize, FrameTooLarge>(le_value(header@) as usize),
        le_value(header@) > MAX_FRAME ==> r == Err::<usize, FrameTooLarge>(FrameTooLarge { len: le_value(header@) as u32 }),
{
    let len = u32_from_le(header);
    if len as usize > MAX_FRAME {
        Err(FrameTooLarge { len })
    } else {
        Ok(len as usize)
    }
}

/// A frame's header announces exactly its payload's length, so a reader gets
/// back every payload a writer framed (payloads up to `MAX_FRAME` bytes).
pub proof fn law_frame_announces_its_length(payload: Seq<u8>, frame: Seq<u8>)
    requires
        payload.len() <= MAX_FRAME,
        frame.len() == 4 + payload.len(),
        le_value(frame.take(4)) == payload.len(),
        frame.skip(4) == payload,
    ensures
        le_value(frame.take(4)) <= MAX_FRAME,
        frame.subrange(4, 4 + le_value(frame.take(4))) == payload,
{
    assert(frame.subrange(4, 4 + le_value(frame.take(4))) =~= frame.skip(4));
}

// --- Fingerprints ---------------------------------------------------------------------

/// The SHA-256 digest of `data`, as computed by the `sha2` crate.
pub uninterp spec fn sha256_digest(data: Seq<u8>) -> Seq<u8>;

/// SHA-256 of `data` (`sha2::Sha256::digest`); its 32 bytes are the digest.
#[verifier::external_body]
fn sha256(data: &[u8]) -> (r: [u8; 32])
    ensures
        r@ == sha256_digest(data@),
{
    Sha256::digest(data).into()
}

/// SHA-256 of a certificate's DER encoding.
pub fn fingerprint(cert_der: &[u8]) -> (r: [u8; 32])
    ensures
        r@ == sha256_digest(cert_der@),
{
    sha256(cert_der)
}


/// The lowercase hexadecimal digit for `v` (`0..16`).
pub open spec fn hex_digit(v: int) -> char {
    if v < 10 { (v + 48) as char } else { (v - 10 + 97) as char }
}

/// A byte as two lowercase hex digits.
pub open spec fn hex_pair(b: u8) -> Seq<char> {
    seq![hex_digit(b as int / 16), hex_digit(b as int % 16)]
}

/// Bytes as colon-separated two-digit lowercase hex groups, like OpenSSH prints.
pub open spec fn hex_text(s: Seq<u8>) -> Seq<char>
    decreases s.len(),
{
    if s.len() == 0 {
        seq![]
    } else if s.len() == 1 {
        hex_pair(s[0])
    } else {
        hex_text(s.drop_last()) + seq![':'] + hex_pair(s.last())
    }
}

fn hex_digit_char(v: u8) -> (c: char)
    requires
        v < 16,
    ensures
        c == hex_digit(v as int),
{
    if v < 10 {
        (v + 48) as char
    } else {
        (v - 10 + 97) as char
    }
}

/// Human-readable colon-separated hex, like OpenSSH prints.
pub fn fingerprint_hex(fp: &[u8; 32]) -> (r: String)
    ensures
        r@ == hex_text(fp@),
        r@.len() == 95,
{
    proof {
        law_fingerprint_text_shape(fp@);
    }
    let mut out: Vec<char> = Vec::new();
    let mut i: usize = 0;
    while i < 32
        invariant
            i <= 32,
            fp@.len() == 32,
            out@ == hex_text(fp@.take(i as int)),
        decreases 32 - i,
    {
        let b = fp[i];
        if i > 0 {
            out.push(':');
        }
        out.push(hex_digit_char(b / 16));
        out.push(hex_digit_char(b % 16));
        proof {
            assert(fp@.take(i + 1).drop_last() =~= fp@.take(i as int));
            if i == 0 {
                assert(out@ =~= hex_pair(b));
            } else {
                assert(out@ =~= hex_text(fp@.take(i as int)) + seq![':'] + hex_pair(b));
            }
        }
        i += 1;
    }
    assert(fp@.take(32) =~= fp@);
    crate::text::from_chars(out.as_slice())
}

/// The value of hex digit `c` (either case), if it is one.
pub open spec fn hex_value(c: char) -> Option<int> {
    if '0' <= c <= '9' {
        Some(c as int - 48)
    } else if 'a' <= c <= 'f' {
        Some(c as int - 87)
    } else if 'A' <= c <= 'F' {
        Some(c as int - 55)
    } else {
        None
    }
}

/// Whether every character of `s` is a hex digit.
pub open spec fn all_hex(s: Seq<char>) -> bool {
    forall|i: int| 0 <= i < s.len() ==> (#[trigger] hex_value(s[i])) is Some
}

/// The number a string of hex digits denotes.
pub open spec fn hex_number(s: Seq<char>) -> int
    decreases s.len(),
{
    if s.len() == 0 {
        0
    } else {
        16 * hex_number(s.drop_last()) + hex_value(s.last())->0
    }
}

/// What `u8::from_str_radix(p, 16)` yields: an optional leading `+`, then one or
/// more hex digits of either case, denoting a value that fits in a byte.
pub open spec fn parse_hex_byte(p: Seq<char>) -> Option<u8> {
    let digits = if p.len() > 0 && p[0] == '+' { p.skip(1) } else { p };
    if digits.len() > 0 && all_hex(digits) && hex_number(digits) < 256 {
        Some(hex_number(digits) as u8)
    } else {
        None
    }
}

/// What `parse_fingerprint` yields for the text `s`: exactly 32 colon-separated
/// parts, each a hex byte.
pub open spec fn spec_parse_fingerprint(s: Seq<char>) -> Option<Seq<u8>> {
    let parts = split_on(s, ':');
    if parts.len() == 32 && forall|i: int| 0 <= i < 32 ==> (#[trigger] parse_hex_byte(parts[i])) is Some {
        Some(Seq::new(32, |i: int| parse_hex_byte(parts[i])->0))
    } else {
        None
    }
}

/// Parses `hex` as a byte the way `u8::from_str_radix(hex, 16)` does.
fn parse_hex_byte_exec(p: &[char]) -> (r: Option<u8>)
    ensures
        r == parse_hex_byte(p@),
{
    let start: usize = if p.len() > 0 && p[0] == '+' { 1 } else { 0 };
    let ghost digits = if p@.len() > 0 && p@[0] == '+' { p@.skip(1) } else { p@ };
    proof {
        assert(digits =~= p@.skip(start as int));
    }
    if start >= p.len() {
        return None;
    }
    let mut value: u32 = 0;
    let mut i: usize = start;
    while i < p.len()
        invariant
            start <= i <= p@.len(),
            digits == p@.skip(start as int),
            digits == (if p@.len() > 0 && p@[0] == '+' { p@.skip(1) } else { p@ }),
            all_hex(p@.subrange(start as int, i as int)),
            value == hex_number(p@.subrange(start as int, i as int)),
            value < 256,
        decreases p@.len() - i,
    {
        let c = p[i];
        let d: u32 = if '0' <= c && c <= '9' {
            c as u32 - 48
        } else if 'a' <= c && c <= 'f' {
            c as u32 - 87
        } else if 'A' <= c && c <= 'F' {
            c as u32 - 55
        } else {
            proof {
                assert(digits[i - start] == p@[i as int]);
                assert(hex_value(digits[i - start]) is None);
                assert(!all_hex(digits));
            }
            return None;
        };
        let ghost prefix = p@.subrange(start as int, i + 1);
        proof {
            assert(prefix.drop_last() =~= p@.subrange(start as int, i as int));
            assert(prefix.last() == c);
        }
        let next = value * 16 + d;
        if next >= 256 {
            proof {
                assert(digits.take(i + 1 - start) =~= prefix);
                assert(hex_number(prefix) == 16 * value + d);
                if all_hex(digits) {
                    lemma_hex_number_grows(digits, i + 1 - start);
                }
            }
            return None;
        }
        value = next;
        i += 1;
    }
    proof {
        assert(p@.subrange(start as int, p@.len() as int) =~= digits);
    }
    Some(value as u8)
}

proof fn lemma_hex_number_nonneg(s: Seq<char>)
    requires
        all_hex(s),
    ensures
        hex_number(s) >= 0,
    decreases s.len(),
{
    if s.len() > 0 {
        assert forall|i: int| 0 <= i < s.drop_last().len() implies (#[trigger] hex_value(s.drop_last()[i])) is Some by {
            assert(hex_value(s[i]) is Some);
        }
        lemma_hex_number_nonneg(s.drop_last());
        assert(hex_value(s.last()) is Some);
    }
}

/// Extending a digit string never makes its number smaller.
proof fn lemma_hex_number_grows(s: Seq<char>, k: int)
    requires
        0 <= k <= s.len(),
        all_hex(s),
    ensures
        hex_number(s.take(k)) <= hex_number(s),
    decreases s.len(),
{
    if k < s.len() {
        assert(s.drop_last().take(k) =~= s.take(k));
        assert forall|i: int| 0 <= i < s.drop_last().len() implies (#[trigger] hex_value(s.drop_last()[i])) is Some by {
            assert(hex_value(s[i]) is Some);
        }
        lemma_hex_number_grows(s.drop_last(), k);
        lemma_hex_number_nonneg(s.drop_last());
        assert(hex_value(s.last()) is Some);
    } else {
        assert(s.take(k) =~= s);
    }
}

/// Parse the colon-separated hex form of a fingerprint back into its 32 bytes.
pub fn parse_fingerprint(hex: &str) -> (r: Option<[u8; 32]>)
    ensures
        match spec_parse_fingerprint(hex@) {
            Some(bytes) => r is Some && r->0@ == bytes,
            None => r is None,
        },
{
    let cs = crate::text::to_chars(hex);
    let parts = split_chars(cs.as_slice(), ':');
    if parts.len() != 32 {
        return None;
    }
    let ghost sp = split_on(hex@, ':');
    let mut out = [0u8; 32];
    let mut i: usize = 0;
    while i < 32
        invariant
            i <= 32,
            parts@.len() == 32,
            sp.len() == 32,
            sp == split_on(hex@, ':'),
            forall|j: int| 0 <= j < 32 ==> (#[trigger] parts@[j])@ == sp[j],
            forall|j: int| 0 <= j < i ==> (#[trigger] parse_hex_byte(sp[j])) is Some && out@[j] == parse_hex_byte(sp[j])->0,
        decreases 32 - i,
    {
        match parse_hex_byte_exec(parts[i].as_slice()) {
            Some(b) => {
                out[i] = b;
            },
            None => {
                proof {
                    assert(parse_hex_byte(sp[i as int]) is None);
                }
                return None;
            },
        }
        i += 1;
    }
    assert(out@ =~= Seq::new(32, |k: int| parse_hex_byte(sp[k])->0));
    Some(out)
}

/// Reading back the text form of a fingerprint gives the same fingerprint, so a
/// trusted host recorded in `known_hosts` is recognized on the next visit.
pub proof fn law_fingerprint_text_round_trips(fp: Seq<u8>)
    requires
        fp.len() == 32,
    ensures
        spec_parse_fingerprint(hex_text(fp)) == Some(fp),
{
    lemma_split_hex_text(fp);
    let parts = split_on(hex_text(fp), ':');
    assert forall|i: int| 0 <= i < 32 implies (#[trigger] parse_hex_byte(parts[i])) == Some(fp[i]) by {
        lemma_parse_hex_pair(fp[i]);
    }
    assert(Seq::new(32, |i: int| parse_hex_byte(parts[i])->0) =~= fp);
}

proof fn lemma_hex_digit(v: int)
    requires
        0 <= v < 16,
    ensures
        hex_digit(v) != ':',
        hex_value(hex_digit(v)) == Some(v),
{
    let c = hex_digit(v);
    if v < 10 {
        assert(c as int == v + 48);
    } else {
        assert(c as int == v + 87);
    }
}

proof fn lemma_parse_hex_pair(b: u8)
    ensures
        parse_hex_byte(hex_pair(b)) == Some(b),
{
    let p = hex_pair(b);
    lemma_hex_digit(b as int / 16);
    lemma_hex_digit(b as int % 16);
    assert(p.drop_last() =~= seq![hex_digit(b as int / 16)]);
    assert(p.drop_last().drop_last() =~= Seq::<char>::empty());
    assert(hex_value(p[0]) == Some(b as int / 16));
    assert(hex_value(p[1]) == Some(b as int % 16));
    assert(p[0] != '+');
    assert(all_hex(p)) by {
        assert forall|i: int| 0 <= i < p.len() implies (#[trigger] hex_value(p[i])) is Some by {
            if i == 0 {} else {}
        }
    }
    assert(hex_number(p.drop_last().drop_last()) == 0);
    assert(p.drop_last().last() == p[0]);
    assert(hex_number(p.drop_last()) == b as int / 16);
    assert(hex_number(p) == b as int);
}

/// Splitting the text form at colons gives back each byte's two digits.
proof fn lemma_split_hex_text(s: Seq<u8>)
    requires
        s.len() >= 1,
    ensures
        split_on(hex_text(s), ':').len() == s.len(),
        forall|i: int| 0 <= i < s.len() ==> #[trigger] split_on(hex_text(s), ':')[i] == hex_pair(s[i]),
    decreases s.len(),
{
    let b = s.last();
    let p = hex_pair(b);
    lemma_hex_digit(b as int / 16);
    lemma_hex_digit(b as int % 16);
    if s.len() == 1 {
        let t = hex_text(s);
        assert(t =~= p);
        assert(t.drop_last() =~= seq![p[0]]);
        assert(t.drop_last().drop_last() =~= Seq::<char>::empty());
        assert(split_on(t.drop_last().drop_last(), ':') =~= seq![Seq::<char>::empty()]);
        assert(split_on(t.drop_last(), ':') =~~= seq![seq![p[0]]]);
        assert(t.last() == p[1]);
        assert(split_on(t, ':') =~~= seq![p]);
    } else {
        let pre = hex_text(s.drop_last());
        lemma_split_hex_text(s.drop_last());
        let t = hex_text(s);
        let a = pre + seq![':'];
        let ab = a + seq![p[0]];
        assert(t =~= ab + seq![p[1]]);
        assert(t.drop_last() =~= ab);
        assert(ab.drop_last() =~= a);
        assert(a.drop_last() =~= pre);
        let sp = split_on(pre, ':');
        assert(split_on(a, ':') =~= sp.push(seq![]));
        assert(split_on(ab, ':') =~~= sp.push(seq![p[0]]));
        assert(t.last() == p[1]);
        assert(split_on(t, ':') =~~= sp.push(p));
        assert forall|i: int| 0 <= i < s.len() implies #[trigger] split_on(t, ':')[i] == hex_pair(s[i]) by {
            if i < s.len() - 1 {
                assert(s.drop_last()[i] == s[i]);
            }
        }
    }
}

proof fn lemma_hex_text_len(s: Seq<u8>)
    requires
        s.len() >= 1,
    ensures
        hex_text(s).len() == 3 * s.len() - 1,
    decreases s.len(),
{
    if s.len() > 1 {
        lemma_hex_text_len(s.drop_last());
    }
}

/// The text form of a fingerprint is 95 characters: 32 colon-separated groups,
/// group `i` being byte `i` as two lowercase hex digits.
pub proof fn law_fingerprint_text_shape(fp: Seq<u8>)
    requires
        fp.len() == 32,
    ensures
        hex_text(fp).len() == 95,
        split_on(hex_text(fp), ':').len() == 32,
        forall|i: int| 0 <= i < 32 ==> #[trigger] split_on(hex_text(fp), ':')[i] == hex_pair(fp[i]),
        forall|i: int| 0 <= i < 32 ==> ({
            let p = #[trigger] hex_pair(fp[i]);
            &&& p.len() == 2
            &&& ('0' <= p[0] <= '9' || 'a' <= p[0] <= 'f')
            &&& ('0' <= p[1] <= '9' || 'a' <= p[1] <= 'f')
        }),
{
    lemma_hex_text_len(fp);
    lemma_split_hex_text(fp);
    assert forall|i: int| 0 <= i < 32 implies ({
        let p = #[trigger] hex_pair(fp[i]);
        &&& p.len() == 2
        &&& ('0' <= p[0] <= '9' || 'a' <= p[0] <= 'f')
        &&& ('0' <= p[1] <= '9' || 'a' <= p[1] <= 'f')
    }) by {
        lemma_hex_digit_char(fp[i] as int / 16);
        lemma_hex_digit_char(fp[i] as int % 16);
    }
}

// --- Known hosts ------------------------------------------------------------------------

/// The host → fingerprint map a list of entries describes; a later entry for a
/// host overrides an earlier one.
pub open spec fn host_map(s: Seq<(String, [u8; 32])>) -> Map<Seq<char>, Seq<u8>>
    decreases s.len(),
{
    if s.len() == 0 {
        Map::empty()
    } else {
        host_map(s.drop_last()).insert(s.last().0@, s.last().1@)
    }
}

/// The entries of `s` for hosts other than `k`, in order.
pub open spec fn hosts_without(s: Seq<(String, [u8; 32])>, k: Seq<char>) -> Seq<(String, [u8; 32])>
    decreases s.len(),
{
    if s.len() == 0 {
        s
    } else if s.last().0@ == k {
        hosts_without(s.drop_last(), k)
    } else {
        hosts_without(s.drop_last(), k).push(s.last())
    }
}

proof fn lemma_host_map_found(s: Seq<(String, [u8; 32])>, k: Seq<char>, i: int)
    requires
        0 <= i < s.len(),
        s[i].0@ == k,
        forall|j: int| i < j < s.len() ==> (#[trigger] s[j]).0@ != k,
    ensures
        host_map(s).contains_key(k),
        host_map(s)[k] == s[i].1@,
    decreases s.len(),
{
    if i < s.len() - 1 {
        lemma_host_map_found(s.drop_last(), k, i);
        assert(s.last() == s[s.len() - 1]);
    }
}

proof fn lemma_host_map_absent(s: Seq<(String, [u8; 32])>, k: Seq<char>)
    requires
        forall|j: int| 0 <= j < s.len() ==> (#[trigger] s[j]).0@ != k,
    ensures
        !host_map(s).contains_key(k),
    decreases s.len(),
{
    if s.len() > 0 {
        assert(s.last() == s[s.len() - 1]);
        lemma_host_map_absent(s.drop_last(), k);
    }
}

proof fn lemma_hosts_without(s: Seq<(String, [u8; 32])>, k: Seq<char>)
    ensures
        host_map(hosts_without(s, k)) == host_map(s).remove(k),
    decreases s.len(),
{
    if s.len() > 0 {
        lemma_hosts_without(s.drop_last(), k);
        let w = hosts_without(s.drop_last(), k);
        if s.last().0@ != k {
            assert(w.push(s.last()).drop_last() =~= w);
        }
        assert(host_map(hosts_without(s, k)) =~= host_map(s).remove(k));
    } else {
        assert(host_map(hosts_without(s, k)) =~= host_map(s).remove(k));
    }
}

/// The `known_hosts` file's first line.
pub const KNOWN_HOSTS_HEADER: &'static str = "# survival-cubed known hosts (host fingerprint)\n";

/// One `host fingerprint` line per entry, in order.
pub open spec fn hosts_lines(s: Seq<(String, [u8; 32])>) -> Seq<char>
    decreases s.len(),
{
    if s.len() == 0 {
        seq![]
    } else {
        hosts_lines(s.drop_last()) + s.last().0@ + seq![' '] + hex_text(s.last().1@) + seq!['\n']
    }
}

/// The index of the first whitespace character of `t`.
pub open spec fn first_ws(t: Seq<char>) -> Option<int>
    decreases t.len(),
{
    if t.len() == 0 {
        None
    } else {
        match first_ws(t.drop_last()) {
            Some(i) => Some(i),
            None => if crate::text::spec_is_whitespace(t.last()) { Some(t.len() - 1) } else { None },
        }
    }
}

/// The entry a `known_hosts` line records: after trimming, a line that is
/// blank or starts with `#` records nothing; otherwise the host is the text
/// before the first whitespace character and the fingerprint is the trimmed
/// text after it, when that parses.
pub open spec fn host_line(l: Seq<char>) -> Option<(Seq<char>, Seq<u8>)> {
    let t = crate::text::trimmed(l);
    if t.len() == 0 || t[0] == '#' {
        None
    } else {
        match first_ws(t) {
            None => None,
            Some(i) => match spec_parse_fingerprint(crate::text::trimmed(t.skip(i + 1))) {
                Some(fp) => Some((t.take(i), fp)),
                None => None,
            },
        }
    }
}

/// The host map read from the lines of a `known_hosts` file, later lines
/// overriding earlier ones.
pub open spec fn parse_host_lines(ls: Seq<Seq<char>>) -> Map<Seq<char>, Seq<u8>>
    decreases ls.len(),
{
    if ls.len() == 0 {
        Map::empty()
    } else {
        match host_line(ls.last()) {
            Some((h, fp)) => parse_host_lines(ls.drop_last()).insert(h, fp),
            None => parse_host_lines(ls.drop_last()),
        }
    }
}

// --- Reading back a written known_hosts file -------------------------------------------------

/// Whether `h` is a host label a `known_hosts` line records and reads back
/// unchanged: non-empty, free of whitespace, and not starting with `#`.
pub open spec fn plain_label(h: Seq<char>) -> bool {
    &&& h.len() > 0
    &&& h[0] != '#'
    &&& forall|i: int| 0 <= i < h.len() ==> !crate::text::spec_is_whitespace(#[trigger] h[i])
}

/// The `known_hosts` line recording `fp` for host `h` (without its `\n`).
pub open spec fn host_entry_line(h: Seq<char>, fp: Seq<u8>) -> Seq<char> {
    h + seq![' '] + hex_text(fp)
}

/// The lines recording the entries `s`, in order.
pub open spec fn host_texts(s: Seq<(String, [u8; 32])>) -> Seq<Seq<char>>
    decreases s.len(),
{
    if s.len() == 0 {
        seq![]
    } else {
        host_texts(s.drop_last()).push(host_entry_line(s.last().0@, s.last().1@))
    }
}

/// Whether `c` is a lowercase hex digit or a colon.
pub open spec fn hex_or_colon(c: char) -> bool {
    c == ':' || ('0' <= c <= '9') || ('a' <= c <= 'f')
}

proof fn lemma_hex_digit_char(v: int)
    requires
        0 <= v < 16,
    ensures
        ('0' <= hex_digit(v) <= '9') || ('a' <= hex_digit(v) <= 'f'),
{
    if v < 10 {
        assert(hex_digit(v) as int == v + 48);
    } else {
        assert(hex_digit(v) as int == v + 87);
    }
}

/// The text form of bytes is made of hex digits and colons, and starts and
/// ends with a digit.
proof fn lemma_hex_text_chars(s: Seq<u8>)
    requires
        s.len() >= 1,
    ensures
        hex_text(s).len() >= 2,
        forall|i: int| 0 <= i < hex_text(s).len() ==> hex_or_colon(#[trigger] hex_text(s)[i]),
        hex_text(s)[0] != ':',
        hex_text(s).last() != ':',
    decreases s.len(),
{
    let b = s.last();
    lemma_hex_digit_char(b as int / 16);
    lemma_hex_digit_char(b as int % 16);
    let p = hex_pair(b);
    if s.len() == 1 {
        assert(hex_text(s) == p);
    } else {
        let pre = hex_text(s.drop_last());
        lemma_hex_text_chars(s.drop_last());
        let t = hex_text(s);
        assert(t == pre + seq![':'] + p);
        assert forall|i: int| 0 <= i < t.len() implies hex_or_colon(#[trigger] t[i]) by {
            if i < pre.len() {
                assert(t[i] == pre[i]);
            } else if i == pre.len() {
                assert(t[i] == ':');
            } else if i == pre.len() + 1 {
                assert(t[i] == p[0]);
            } else {
                assert(t[i] == p[1]);
            }
        }
        assert(t[0] == pre[0]);
    }
}

proof fn lemma_first_ws_none(t: Seq<char>)
    requires
        forall|i: int| 0 <= i < t.len() ==> !crate::text::spec_is_whitespace(#[trigger] t[i]),
    ensures
        first_ws(t) is None,
    decreases t.len(),
{
    if t.len() > 0 {
        assert forall|i: int| 0 <= i < t.drop_last().len() implies !crate::text::spec_is_whitespace(#[trigger] t.drop_last()[i]) by {
            assert(t.drop_last()[i] == t[i]);
        }
        lemma_first_ws_none(t.drop_last());
        assert(!crate::text::spec_is_whitespace(t[t.len() - 1]));
    }
}

/// A recorded host's line reads back as that host and fingerprint, and is a
/// single line.
proof fn lemma_host_line_reads_back(h: Seq<char>, fp: Seq<u8>)
    requires
        plain_label(h),
        fp.len() == 32,
    ensures
        host_line(host_entry_line(h, fp)) == Some((h, fp)),
        crate::text::single_line(host_entry_line(h, fp)),
{
    let x = hex_text(fp);
    let l = host_entry_line(h, fp);
    lemma_hex_text_chars(fp);
    let n: int = h.len() as int;
    assert(l[0] == h[0]);
    assert(l.last() == x.last());
    assert(!crate::text::spec_is_whitespace(h[0]));
    assert(hex_or_colon(x[x.len() - 1]));
    assert(crate::text::trim_start(l) == l);
    assert(crate::text::trim_end(l) == l);
    assert(crate::text::trimmed(l) == l);
    // The first whitespace is the separating space.
    assert(l.take(n + 1).drop_last() =~= h);
    lemma_first_ws_none(h);
    assert(l.take(n + 1).last() == ' ');
    assert(first_ws(l.take(n + 1)) == Some(n));
    lemma_first_ws_prefix(l, n + 1);
    assert(l.take(n) =~= h);
    assert(l.skip(n + 1) =~= x);
    assert(hex_or_colon(x[0]));
    assert(crate::text::trim_start(x) == x);
    assert(crate::text::trim_end(x) == x);
    law_fingerprint_text_round_trips(fp);
    // No line break inside, none at the end.
    assert(!l.contains('\n')) by {
        if l.contains('\n') {
            let i = choose|i: int| 0 <= i < l.len() && l[i] == '\n';
            if i < n {
                assert(l[i] == h[i]);
            } else if i > n {
                assert(l[i] == x[i - n - 1]);
                assert(hex_or_colon(x[i - n - 1]));
            }
        }
    }
}

proof fn lemma_host_texts_joined(s: Seq<(String, [u8; 32])>)
    ensures
        hosts_lines(s) == crate::text::joined_lines(host_texts(s)),
        host_texts(s).len() == s.len(),
    decreases s.len(),
{
    if s.len() > 0 {
        lemma_host_texts_joined(s.drop_last());
        let t = host_texts(s);
        assert(t.drop_last() =~= host_texts(s.drop_last()));
        assert(hosts_lines(s) =~= crate::text::joined_lines(t));
    }
}

proof fn lemma_host_map_keys(s: Seq<(String, [u8; 32])>)
    ensures
        forall|i: int| 0 <= i < s.len() ==> host_map(s).contains_key(#[trigger] s[i].0@),
    decreases s.len(),
{
    if s.len() > 0 {
        lemma_host_map_keys(s.drop_last());
        assert forall|i: int| 0 <= i < s.len() implies host_map(s).contains_key(#[trigger] s[i].0@) by {
            if i < s.len() - 1 {
                assert(s.drop_last()[i] == s[i]);
            }
        }
    }
}

proof fn lemma_parse_host_texts(s: Seq<(String, [u8; 32])>)
    requires
        forall|i: int| 0 <= i < s.len() ==> plain_label(#[trigger] s[i].0@),
    ensures
        parse_host_lines(host_texts(s)) == host_map(s),
        forall|i: int| 0 <= i < s.len() ==> crate::text::single_line(#[trigger] host_texts(s)[i]),
    decreases s.len(),
{
    lemma_host_texts_joined(s);
    if s.len() > 0 {
        let pre = s.drop_last();
        assert forall|i: int| 0 <= i < pre.len() implies plain_label(#[trigger] pre[i].0@) by {
            assert(pre[i] == s[i]);
        }
        lemma_parse_host_texts(pre);
        lemma_host_texts_joined(pre);
        let e = s.last();
        assert(plain_label(s[s.len() - 1].0@));
        lemma_host_line_reads_back(e.0@, e.1@);
        let t = host_texts(s);
        assert(t.drop_last() =~= host_texts(pre));
        assert forall|i: int| 0 <= i < t.len() implies crate::text::single_line(#[trigger] t[i]) by {
            if i < t.len() - 1 {
                assert(t[i] == host_texts(pre)[i]);
            }
        }
    }
}

proof fn lemma_parse_skips_first(first: Seq<char>, ls: Seq<Seq<char>>)
    requires
        host_line(first) is None,
    ensures
        parse_host_lines(seq![first] + ls) == parse_host_lines(ls),
    decreases ls.len(),
{
    let all = seq![first] + ls;
    if ls.len() == 0 {
        assert(all =~= seq![first]);
        assert(all.drop_last() =~= Seq::<Seq<char>>::empty());
        assert(all.last() == first);
        assert(parse_host_lines(all) == parse_host_lines(all.drop_last()));
    } else {
        lemma_parse_skips_first(first, ls.drop_last());
        assert(all.drop_last() =~= seq![first] + ls.drop_last());
        assert(all.last() == ls.last());
    }
}

proof fn lemma_known_hosts_header()
    ensures
        KNOWN_HOSTS_HEADER@ == crate::text::joined_lines(seq![KNOWN_HOSTS_HEADER@.drop_last()]),
        crate::text::single_line(KNOWN_HOSTS_HEADER@.drop_last()),
        host_line(KNOWN_HOSTS_HEADER@.drop_last()) is None,
{
    reveal_strlit("# survival-cubed known hosts (host fingerprint)\n");
    let full = KNOWN_HOSTS_HEADER@;
    let h = full.drop_last();
    assert(full.last() == '\n');
    assert(seq![h].drop_last() =~= Seq::<Seq<char>>::empty());
    assert(seq![h].last() == h);
    assert(crate::text::joined_lines(seq![h]) == crate::text::joined_lines(Seq::<Seq<char>>::empty()) + h + seq!['\n']);
    assert(full =~= crate::text::joined_lines(seq![h]));
    assert(!h.contains('\n')) by {
        if h.contains('\n') {
            let i = choose|i: int| 0 <= i < h.len() && h[i] == '\n';
            assert(full[i] == '\n');
        }
    }
    assert(h[0] == '#');
    assert(crate::text::trim_start(h) == h);
    assert(crate::text::trim_end(h) == h);
}

/// What a written `known_hosts` file reads back as: when every host label is
/// plain, exactly the host map that was written.
proof fn lemma_known_hosts_text(s: Seq<(String, [u8; 32])>)
    requires
        forall|h: Seq<char>| host_map(s).contains_key(h) ==> plain_label(h),
    ensures
        parse_host_lines(crate::text::text_lines(KNOWN_HOSTS_HEADER@ + hosts_lines(s))) == host_map(s),
{
    lemma_host_map_keys(s);
    assert forall|i: int| 0 <= i < s.len() implies plain_label(#[trigger] s[i].0@) by {
        assert(host_map(s).contains_key(s[i].0@));
    }
    lemma_parse_host_texts(s);
    lemma_host_texts_joined(s);
    lemma_known_hosts_header();
    let hdr = KNOWN_HOSTS_HEADER@.drop_last();
    let ls = seq![hdr] + host_texts(s);
    crate::text::lemma_joined_concat(seq![hdr], host_texts(s));
    assert forall|i: int| 0 <= i < ls.len() implies crate::text::single_line(#[trigger] ls[i]) by {
        if i > 0 {
            assert(ls[i] == host_texts(s)[i - 1]);
        }
    }
    crate::text::lemma_text_lines_joined(ls);
    lemma_parse_skips_first(hdr, host_texts(s));
}

/// Maps a host label (e.g. `"127.0.0.1:5000"`) to a trusted fingerprint.
pub struct KnownHosts {
    entries: Vec<(String, [u8; 32])>,
}

impl View for KnownHosts {
    type V = Map<Seq<char>, Seq<u8>>;

    open spec fn view(&self) -> Map<Seq<char>, Seq<u8>> {
        host_map(self.host_entries())
    }
}

impl KnownHosts {
    /// The recorded `(host, fingerprint)` entries, in the order they are saved;
    /// a later entry for a host overrides an earlier one.
    pub closed spec fn host_entries(&self) -> Seq<(String, [u8; 32])> {
        self.entries@
    }
}

/// The first whitespace character of `t` at or after nothing: its index.
fn find_ws(t: &[char]) -> (r: Option<usize>)
    ensures
        r matches Some(i) ==> first_ws(t@) == Some(i as int) && i < t@.len(),
        r is None ==> first_ws(t@) is None,
{
    let mut i: usize = 0;
    while i < t.len()
        invariant
            i <= t@.len(),
            first_ws(t@.take(i as int)) is None,
        decreases t@.len() - i,
    {
        proof {
            assert(t@.take(i + 1).drop_last() =~= t@.take(i as int));
        }
        if crate::text::is_whitespace(t[i]) {
            proof {
                lemma_first_ws_prefix(t@, i as int + 1);
            }
            return Some(i);
        }
        i += 1;
    }
    assert(t@.take(i as int) =~= t@);
    None
}

/// A whitespace found in a prefix is the first one of the whole.
proof fn lemma_first_ws_prefix(t: Seq<char>, k: int)
    requires
        0 <= k <= t.len(),
        first_ws(t.take(k)) is Some,
    ensures
        first_ws(t) == first_ws(t.take(k)),
    decreases t.len(),
{
    if k < t.len() {
        assert(t.drop_last().take(k) =~= t.take(k));
        lemma_first_ws_prefix(t.drop_last(), k);
    } else {
        assert(t.take(k) =~= t);
    }
}

impl KnownHosts {
    /// An empty store.
    pub fn new() -> (r: Self)
        ensures
            r@ == Map::<Seq<char>, Seq<u8>>::empty(),
    {
        KnownHosts { entries: Vec::new() }
    }

    /// The file text this store is saved as: a comment line, then one
    /// `host fingerprint` line per entry.
    pub open spec fn file_text(&self) -> Seq<char> {
        KNOWN_HOSTS_HEADER@ + hosts_lines(self.host_entries())
    }

    /// The trusted fingerprint recorded for `host`, if any.
    pub fn get(&self, host: &str) -> (r: Option<&[u8; 32]>)
        ensures
            match r {
                Some(fp) => self@.contains_key(host@) && self@[host@] == fp@,
                None => !self@.contains_key(host@),
            },
    {
        let key = host.to_owned();
        let mut i = self.entries.len();
        while i > 0
            invariant
                i <= self.entries@.len(),
                key@ == host@,
                forall|j: int| i <= j < self.entries@.len() ==> (#[trigger] self.entries@[j]).0@ != host@,
            decreases i,
        {
            i -= 1;
            if self.entries[i].0 == key {
                proof {
                    lemma_host_map_found(self.entries@, host@, i as int);
                }
                return Some(&self.entries[i].1);
            }
        }
        proof {
            lemma_host_map_absent(self.entries@, host@);
        }
        None
    }

    /// Record `fp` as the trusted fingerprint of `host`, replacing any earlier one.
    fn put(&mut self, host: &str, fp: [u8; 32])
        ensures
            final(self)@ == old(self)@.insert(host@, fp@),
    {
        let key = host.to_owned();
        let mut kept: Vec<(String, [u8; 32])> = Vec::new();
        let mut i: usize = 0;
        while i < self.entries.len()
            invariant
                i <= self.entries@.len(),
                key@ == host@,
                kept@ == hosts_without(self.entries@.take(i as int), host@),
            decreases self.entries@.len() - i,
        {
            proof {
                assert(self.entries@.take(i + 1).drop_last() =~= self.entries@.take(i as int));
            }
            if !(self.entries[i].0 == key) {
                let name = self.entries[i].0.clone();
                kept.push((name, self.entries[i].1));
            }
            i += 1;
        }
        proof {
            assert(self.entries@.take(i as int) =~= self.entries@);
            lemma_hosts_without(self.entries@, host@);
        }
        let ghost before = kept@;
        kept.push((key, fp));
        proof {
            assert(kept@.drop_last() =~= before);
            assert(host_map(kept@) =~= host_map(old(self).entries@).insert(host@, fp@));
        }
        self.entries = kept;
    }

    /// The text this store is saved as. When every host label is plain (see
    /// `plain_label`), reading that text back gives exactly this store.
    pub fn to_text(&self) -> (r: String)
        ensures
            r@ == self.file_text(),
            (forall|h: Seq<char>| self@.contains_key(h) ==> plain_label(h))
                ==> parse_host_lines(crate::text::text_lines(r@)) == self@,
    {
        proof {
            if forall|h: Seq<char>| self@.contains_key(h) ==> plain_label(h) {
                lemma_known_hosts_text(self.entries@);
            }
        }
        let mut out = to_chars(KNOWN_HOSTS_HEADER);
        let mut i: usize = 0;
        while i < self.entries.len()
            invariant
                i <= self.entries@.len(),
                out@ == KNOWN_HOSTS_HEADER@ + hosts_lines(self.entries@.take(i as int)),
            decreases self.entries@.len() - i,
        {
            proof {
                assert(self.entries@.take(i + 1).drop_last() =~= self.entries@.take(i as int));
            }
            let host = to_chars(self.entries[i].0.as_str());
            let hex = fingerprint_hex(&self.entries[i].1);
            let hex = to_chars(hex.as_str());
            let ghost before = out@;
            append_chars(&mut out, host.as_slice());
            out.push(' ');
            append_chars(&mut out, hex.as_slice());
            out.push('\n');
            i += 1;
            proof {
                assert(out@ =~= KNOWN_HOSTS_HEADER@ + hosts_lines(self.entries@.take(i as int)));
            }
        }
        assert(self.entries@.take(i as int) =~= self.entries@);
        from_chars(out.as_slice())
    }

    /// Record a trusted fingerprint and return the store's new file text, to be
    /// persisted.
    pub fn add_and_save(&mut self, host: &str, fp: [u8; 32]) -> (r: String)
        ensures
            final(self)@ == old(self)@.insert(host@, fp@),
            r@ == final(self).file_text(),
            (forall|h: Seq<char>| final(self)@.contains_key(h) ==> plain_label(h))
                ==> parse_host_lines(crate::text::text_lines(r@)) == final(self)@,
    {
        self.put(host, fp);
        self.to_text()
    }

    /// Read a store from the text of a `known_hosts` file: one `host
    /// fingerprint` per line; blank lines, comments and lines that don't parse
    /// are skipped.
    pub fn from_text(text: &str) -> (r: Self)
        ensures
            r@ == parse_host_lines(crate::text::text_lines(text@)),
    {
        let cs = to_chars(text);
        let ls = crate::text::lines(cs.as_slice());
        let ghost tl = crate::text::text_lines(text@);
        let mut kh = KnownHosts::new();
        let mut i: usize = 0;
        while i < ls.len()
            invariant
                i <= ls@.len(),
                ls@.len() == tl.len(),
                forall|j: int| 0 <= j < ls@.len() ==> (#[trigger] ls@[j])@ == tl[j],
                kh@ == parse_host_lines(tl.take(i as int)),
            decreases ls@.len() - i,
        {
            proof {
                assert(tl.take(i + 1).drop_last() =~= tl.take(i as int));
                assert(tl.take(i + 1).last() == tl[i as int]);
            }
            match parse_host_line(ls[i].as_slice()) {
                Some((host, fp)) => {
                    let h = from_chars(host.as_slice());
                    kh.put(h.as_str(), fp);
                },
                None => {},
            }
            i += 1;
        }
        assert(tl.take(i as int) =~= tl);
        kh
    }
}

/// Appends `cs` to `out`.
fn append_chars(out: &mut Vec<char>, cs: &[char])
    ensures
        final(out)@ == old(out)@ + cs@,
{
    let mut i: usize = 0;
    while i < cs.len()
        invariant
            i <= cs@.len(),
            out@ == old(out)@ + cs@.take(i as int),
        decreases cs@.len() - i,
    {
        out.push(cs[i]);
        i += 1;
        assert(out@ =~= old(out)@ + cs@.take(i as int));
    }
    assert(cs@.take(i as int) =~= cs@);
}

/// The entry one `known_hosts` line records (see `host_line`).
fn parse_host_line(l: &[char]) -> (r: Option<(Vec<char>, [u8; 32])>)
    ensures
        match host_line(l@) {
            Some((h, fp)) => r matches Some((rh, rfp)) && rh@ == h && rfp@ == fp,
            None => r is None,
        },
{
    let t = crate::text::trim_chars(l);
    if t.len() == 0 || t[0] == '#' {
        return None;
    }
    match find_ws(t.as_slice()) {
        None => None,
        Some(i) => {
            let mut host: Vec<char> = Vec::new();
            let mut k: usize = 0;
            while k < i
                invariant
                    i < t@.len(),
                    t@ == crate::text::trimmed(l@),
                    first_ws(t@) == Some(i as int),
                    k <= i,
                    host@ == t@.take(k as int),
                decreases i - k,
            {
                host.push(t[k]);
                k += 1;
                assert(host@ =~= t@.take(k as int));
            }
            let mut rest: Vec<char> = Vec::new();
            let mut k: usize = i + 1;
            while k < t.len()
                invariant
                    i < t@.len(),
                    t@ == crate::text::trimmed(l@),
                    first_ws(t@) == Some(i as int),
                    host@ == t@.take(i as int),
                    i + 1 <= k <= t@.len(),
                    rest@ == t@.subrange(i + 1, k as int),
                decreases t@.len() - k,
            {
                rest.push(t[k]);
                k += 1;
                assert(rest@ =~= t@.subrange(i + 1, k as int));
            }
            assert(rest@ =~= t@.skip(i + 1));
            let rest = crate::text::trim_chars(rest.as_slice());
            let rest = from_chars(rest.as_slice());
            match parse_fingerprint(rest.as_str()) {
                Some(fp) => Some((host, fp)),
                None => None,
            }
        },
    }
}

/// After a host's fingerprint is recorded, looking the host up gives that
/// fingerprint, and every other host keeps what it had.
pub proof fn law_recorded_host_is_trusted(
    m: Map<Seq<char>, Seq<u8>>,
    host: Seq<char>,
    fp: Seq<u8>,
    other: Seq<char>,
)
    requires
        other != host,
    ensures
        m.insert(host, fp).contains_key(host),
        m.insert(host, fp)[host] == fp,
        m.insert(host, fp).contains_key(other) == m.contains_key(other),
        m.contains_key(other) ==> m.insert(host, fp)[other] == m[other],
{
}

// --- Saved logins ----------------------------------------------------------------------------

/// The key a `(server label, player name)` pair is saved under:
/// `"<host>\0<name>"`.
pub open spec fn login_key(host: Seq<char>, name: Seq<char>) -> Seq<char> {
    host + seq!['\0'] + name
}

/// The key → password map a list of entries describes; a later entry for a key
/// overrides an earlier one.
pub open spec fn login_map(s: Seq<(String, String)>) -> Map<Seq<char>, Seq<char>>
    decreases s.len(),
{
    if s.len() == 0 {
        Map::empty()
    } else {
        login_map(s.drop_last()).insert(s.last().0@, s.last().1@)
    }
}

/// The entries of `s` for keys other than `k`, in order.
pub open spec fn logins_without(s: Seq<(String, String)>, k: Seq<char>) -> Seq<(String, String)>
    decreases s.len(),
{
    if s.len() == 0 {
        s
    } else if s.last().0@ == k {
        logins_without(s.drop_last(), k)
    } else {
        logins_without(s.drop_last(), k).push(s.last())
    }
}

proof fn lemma_login_map_found(s: Seq<(String, String)>, k: Seq<char>, i: int)
    requires
        0 <= i < s.len(),
        s[i].0@ == k,
        forall|j: int| i < j < s.len() ==> (#[trigger] s[j]).0@ != k,
    ensures
        login_map(s).contains_key(k),
        login_map(s)[k] == s[i].1@,
    decreases s.len(),
{
    if i < s.len() - 1 {
        lemma_login_map_found(s.drop_last(), k, i);
        assert(s.last() == s[s.len() - 1]);
    }
}

proof fn lemma_login_map_keys(s: Seq<(String, String)>, k: Seq<char>)
    ensures
        login_map(s).contains_key(k) <==> exists|j: int| 0 <= j < s.len() && (#[trigger] s[j]).0@ == k,
    decreases s.len(),
{
    if s.len() > 0 {
        lemma_login_map_keys(s.drop_last(), k);
        if login_map(s.drop_last()).contains_key(k) {
            let j = choose|j: int| 0 <= j < s.drop_last().len() && (#[trigger] s.drop_last()[j]).0@ == k;
            assert(s[j] == s.drop_last()[j]);
        }
        if exists|j: int| 0 <= j < s.len() && (#[trigger] s[j]).0@ == k {
            let j = choose|j: int| 0 <= j < s.len() && (#[trigger] s[j]).0@ == k;
            if j < s.len() - 1 {
                assert(s.drop_last()[j] == s[j]);
            }
        }
    }
}

proof fn lemma_logins_without(s: Seq<(String, String)>, k: Seq<char>)
    ensures
        login_map(logins_without(s, k)) == login_map(s).remove(k),
    decreases s.len(),
{
    if s.len() > 0 {
        lemma_logins_without(s.drop_last(), k);
        let w = logins_without(s.drop_last(), k);
        if s.last().0@ != k {
            assert(w.push(s.last()).drop_last() =~= w);
        }
        assert(login_map(logins_without(s, k)) =~= login_map(s).remove(k));
    } else {
        assert(login_map(logins_without(s, k)) =~= login_map(s).remove(k));
    }
}

/// The saved-logins file's first line.
pub const CREDENTIALS_HEADER: &'static str = "# survival-cubed saved logins (\"<server>\\0<name>\\t<password>\")\n";

/// Whether an entry can be written as one line: its password holds no tab or
/// newline and its key no newline.
pub open spec fn login_writable(key: Seq<char>, password: Seq<char>) -> bool {
    !password.contains('\t') && !password.contains('\n') && !key.contains('\n')
}

/// One `key<TAB>password` line per writable entry, in order.
pub open spec fn login_lines(s: Seq<(String, String)>) -> Seq<char>
    decreases s.len(),
{
    if s.len() == 0 {
        seq![]
    } else if login_writable(s.last().0@, s.last().1@) {
        login_lines(s.drop_last()) + s.last().0@ + seq!['\t'] + s.last().1@ + seq!['\n']
    } else {
        login_lines(s.drop_last())
    }
}

/// The index of the first occurrence of `c` in `t`.
pub open spec fn first_index_of(t: Seq<char>, c: char) -> Option<int>
    decreases t.len(),
{
    if t.len() == 0 {
        None
    } else {
        match first_index_of(t.drop_last(), c) {
            Some(i) => Some(i),
            None => if t.last() == c { Some(t.len() - 1) } else { None },
        }
    }
}

/// The entry a saved-logins line records: nothing for an empty line, a
/// comment, or a line without a tab; otherwise the text before the first tab
/// as key and the rest as password.
pub open spec fn login_line(l: Seq<char>) -> Option<(Seq<char>, Seq<char>)> {
    if l.len() == 0 || l[0] == '#' {
        None
    } else {
        match first_index_of(l, '\t') {
            None => None,
            Some(i) => Some((l.take(i), l.skip(i + 1))),
        }
    }
}

/// The logins read from the lines of a saved-logins file, later lines
/// overriding earlier ones.
pub open spec fn parse_login_lines(ls: Seq<Seq<char>>) -> Map<Seq<char>, Seq<char>>
    decreases ls.len(),
{
    if ls.len() == 0 {
        Map::empty()
    } else {
        match login_line(ls.last()) {
            Some((k, p)) => parse_login_lines(ls.drop_last()).insert(k, p),
            None => parse_login_lines(ls.drop_last()),
        }
    }
}

/// Whether `k` ends with `suffix`.
pub open spec fn ends_with(k: Seq<char>, suffix: Seq<char>) -> bool {
    k.len() >= suffix.len() && k.skip(k.len() - suffix.len()) == suffix
}

// --- Reading back a written saved-logins file ------------------------------------------------

/// Whether no two entries of `s` share a key.
pub open spec fn unique_keys(s: Seq<(String, String)>) -> bool {
    forall|i: int, j: int| #![trigger s[i], s[j]] 0 <= i < j < s.len() ==> s[i].0@ != s[j].0@
}

/// Whether the login `k` → `p` is written as one line and reads back
/// unchanged: the key is non-empty, does not start with `#` and holds no tab or
/// line break; the password holds no tab or line break and does not end with a
/// carriage return.
pub open spec fn plain_login(k: Seq<char>, p: Seq<char>) -> bool {
    &&& k.len() > 0
    &&& k[0] != '#'
    &&& !k.contains('\t')
    &&& login_writable(k, p)
    &&& !(p.len() > 0 && p.last() == '\r')
}

/// The saved-logins line recording password `p` under key `k` (without its `\n`).
pub open spec fn login_entry_line(k: Seq<char>, p: Seq<char>) -> Seq<char> {
    k + seq!['\t'] + p
}

/// The lines recording the writable entries of `s`, in order.
pub open spec fn login_texts(s: Seq<(String, String)>) -> Seq<Seq<char>>
    decreases s.len(),
{
    if s.len() == 0 {
        seq![]
    } else if login_writable(s.last().0@, s.last().1@) {
        login_texts(s.drop_last()).push(login_entry_line(s.last().0@, s.last().1@))
    } else {
        login_texts(s.drop_last())
    }
}

proof fn lemma_logins_without_props(s: Seq<(String, String)>, k: Seq<char>)
    ensures
        forall|i: int| 0 <= i < logins_without(s, k).len() ==> (#[trigger] logins_without(s, k)[i]).0@ != k,
        forall|i: int| 0 <= i < logins_without(s, k).len() ==> exists|j: int|
            0 <= j < s.len() && s[j] == #[trigger] logins_without(s, k)[i],
        unique_keys(s) ==> unique_keys(logins_without(s, k)),
    decreases s.len(),
{
    if s.len() > 0 {
        let pre = s.drop_last();
        lemma_logins_without_props(pre, k);
        let w = logins_without(pre, k);
        assert forall|i: int| 0 <= i < w.len() implies exists|j: int|
            0 <= j < s.len() && s[j] == #[trigger] w[i] by {
            let j = choose|j: int| 0 <= j < pre.len() && pre[j] == w[i];
            assert(s[j] == pre[j]);
        }
        if s.last().0@ != k {
            let w2 = w.push(s.last());
            assert(w2.drop_last() =~= w);
            assert forall|i: int| 0 <= i < w2.len() implies exists|j: int|
                0 <= j < s.len() && s[j] == #[trigger] w2[i] by {
                if i < w.len() {
                    assert(w2[i] == w[i]);
                    let j = choose|j: int| 0 <= j < s.len() && s[j] == w[i];
                    assert(s[j] == w2[i]);
                } else {
                    assert(s[s.len() - 1] == w2[i]);
                }
            }
            if unique_keys(s) {
                assert(unique_keys(pre)) by {
                    assert forall|a: int, b: int| 0 <= a < b < pre.len() implies pre[a].0@ != pre[b].0@ by {
                        assert(pre[a] == s[a] && pre[b] == s[b]);
                    }
                }
                assert forall|a: int, b: int| 0 <= a < b < w2.len() implies w2[a].0@ != w2[b].0@ by {
                    if b < w.len() {
                        assert(w2[a] == w[a] && w2[b] == w[b]);
                    } else {
                        assert(w2[a] == w[a]);
                        let j = choose|j: int| 0 <= j < pre.len() && pre[j] == w[a];
                        assert(s[j] == pre[j]);
                        assert(s[j].0@ != s[s.len() - 1].0@);
                    }
                }
            }
        } else {
            if unique_keys(s) {
                assert(unique_keys(pre)) by {
                    assert forall|a: int, b: int| 0 <= a < b < pre.len() implies pre[a].0@ != pre[b].0@ by {
                        assert(pre[a] == s[a] && pre[b] == s[b]);
                    }
                }
            }
        }
    }
}

proof fn lemma_index_of_first_tab(l: Seq<char>, n: int)
    requires
        0 <= n < l.len(),
        l[n] == '\t',
        forall|i: int| 0 <= i < n ==> l[i] != '\t',
    ensures
        first_index_of(l, '\t') == Some(n),
{
    lemma_first_index_none(l.take(n), '\t');
    assert(l.take(n + 1).drop_last() =~= l.take(n));
    assert(l.take(n + 1).last() == '\t');
    lemma_first_index_prefix(l, '\t', n + 1);
}

pub(crate) proof fn lemma_first_index_none(t: Seq<char>, c: char)
    requires
        forall|i: int| 0 <= i < t.len() ==> t[i] != c,
    ensures
        first_index_of(t, c) is None,
    decreases t.len(),
{
    if t.len() > 0 {
        assert forall|i: int| 0 <= i < t.drop_last().len() implies t.drop_last()[i] != c by {
            assert(t.drop_last()[i] == t[i]);
        }
        lemma_first_index_none(t.drop_last(), c);
        assert(t[t.len() - 1] != c);
    }
}

/// A saved login's line reads back as its key and password, and is a single line.
proof fn lemma_login_line_reads_back(k: Seq<char>, p: Seq<char>)
    requires
        plain_login(k, p),
    ensures
        login_line(login_entry_line(k, p)) == Some((k, p)),
        crate::text::single_line(login_entry_line(k, p)),
{
    let l = login_entry_line(k, p);
    let n: int = k.len() as int;
    assert(l[0] == k[0]);
    assert forall|i: int| 0 <= i < n implies l[i] != '\t' by {
        assert(l[i] == k[i]);
        if k[i] == '\t' {
            assert(k.contains('\t'));
        }
    }
    assert(l[n] == '\t');
    lemma_index_of_first_tab(l, n);
    assert(l.take(n) =~= k);
    assert(l.skip(n + 1) =~= p);
    assert(!l.contains('\n')) by {
        if l.contains('\n') {
            let i = choose|i: int| 0 <= i < l.len() && l[i] == '\n';
            if i < n {
                assert(l[i] == k[i]);
                assert(k.contains('\n'));
            } else if i > n {
                assert(l[i] == p[i - n - 1]);
                assert(p.contains('\n'));
            }
        }
    }
    if p.len() > 0 {
        assert(l.last() == p.last());
    }
}

proof fn lemma_login_texts_joined(s: Seq<(String, String)>)
    ensures
        login_lines(s) == crate::text::joined_lines(login_texts(s)),
    decreases s.len(),
{
    if s.len() > 0 {
        lemma_login_texts_joined(s.drop_last());
        let t = login_texts(s);
        if login_writable(s.last().0@, s.last().1@) {
            assert(t.drop_last() =~= login_texts(s.drop_last()));
            assert(login_lines(s) =~= crate::text::joined_lines(t));
        }
    }
}

proof fn lemma_parse_login_texts(s: Seq<(String, String)>)
    requires
        forall|i: int| 0 <= i < s.len() ==> plain_login((#[trigger] s[i]).0@, s[i].1@),
    ensures
        login_texts(s).len() == s.len(),
        parse_login_lines(login_texts(s)) == login_map(s),
        forall|i: int| 0 <= i < login_texts(s).len() ==> crate::text::single_line(#[trigger] login_texts(s)[i]),
    decreases s.len(),
{
    if s.len() > 0 {
        let pre = s.drop_last();
        assert forall|i: int| 0 <= i < pre.len() implies plain_login((#[trigger] pre[i]).0@, pre[i].1@) by {
            assert(pre[i] == s[i]);
        }
        lemma_parse_login_texts(pre);
        let e = s.last();
        assert(plain_login(s[s.len() - 1].0@, s[s.len() - 1].1@));
        lemma_login_line_reads_back(e.0@, e.1@);
        let t = login_texts(s);
        assert(t.drop_last() =~= login_texts(pre));
        assert forall|i: int| 0 <= i < t.len() implies crate::text::single_line(#[trigger] t[i]) by {
            if i < t.len() - 1 {
                assert(t[i] == login_texts(pre)[i]);
            }
        }
    }
}

proof fn lemma_parse_logins_skips_first(first: Seq<char>, ls: Seq<Seq<char>>)
    requires
        login_line(first) is None,
    ensures
        parse_login_lines(seq![first] + ls) == parse_login_lines(ls),
    decreases ls.len(),
{
    let all = seq![first] + ls;
    if ls.len() == 0 {
        assert(all =~= seq![first]);
        assert(all.drop_last() =~= Seq::<Seq<char>>::empty());
        assert(all.last() == first);
        assert(parse_login_lines(all) == parse_login_lines(all.drop_last()));
    } else {
        lemma_parse_logins_skips_first(first, ls.drop_last());
        assert(all.drop_last() =~= seq![first] + ls.drop_last());
        assert(all.last() == ls.last());
    }
}

proof fn lemma_credentials_header()
    ensures
        CREDENTIALS_HEADER@ == crate::text::joined_lines(seq![CREDENTIALS_HEADER@.drop_last()]),
        crate::text::single_line(CREDENTIALS_HEADER@.drop_last()),
        login_line(CREDENTIALS_HEADER@.drop_last()) is None,
{
    reveal_strlit("# survival-cubed saved logins (\"<server>\\0<name>\\t<password>\")\n");
    let full = CREDENTIALS_HEADER@;
    let h = full.drop_last();
    assert(full.last() == '\n');
    assert(seq![h].drop_last() =~= Seq::<Seq<char>>::empty());
    assert(seq![h].last() == h);
    assert(crate::text::joined_lines(seq![h]) == crate::text::joined_lines(Seq::<Seq<char>>::empty()) + h + seq!['\n']);
    assert(full =~= crate::text::joined_lines(seq![h]));
    assert(!h.contains('\n')) by {
        if h.contains('\n') {
            let i = choose|i: int| 0 <= i < h.len() && h[i] == '\n';
            assert(full[i] == '\n');
        }
    }
    assert(h[0] == '#');
}

/// What a written saved-logins file reads back as: when every login is plain,
/// exactly the logins that were written.
proof fn lemma_credentials_text(s: Seq<(String, String)>)
    requires
        unique_keys(s),
        forall|k: Seq<char>| login_map(s).contains_key(k) ==> plain_login(k, login_map(s)[k]),
    ensures
        parse_login_lines(crate::text::text_lines(CREDENTIALS_HEADER@ + login_lines(s))) == login_map(s),
{
    assert forall|i: int| 0 <= i < s.len() implies plain_login((#[trigger] s[i]).0@, s[i].1@) by {
        assert forall|j: int| i < j < s.len() implies (#[trigger] s[j]).0@ != s[i].0@ by {
            assert(s[i].0@ != s[j].0@);
        }
        lemma_login_map_found(s, s[i].0@, i);
    }
    lemma_parse_login_texts(s);
    lemma_login_texts_joined(s);
    lemma_credentials_header();
    let hdr = CREDENTIALS_HEADER@.drop_last();
    let ls = seq![hdr] + login_texts(s);
    crate::text::lemma_joined_concat(seq![hdr], login_texts(s));
    assert forall|i: int| 0 <= i < ls.len() implies crate::text::single_line(#[trigger] ls[i]) by {
        if i > 0 {
            assert(ls[i] == login_texts(s)[i - 1]);
        }
    }
    crate::text::lemma_text_lines_joined(ls);
    lemma_parse_logins_skips_first(hdr, login_texts(s));
}

/// Remembers the password used for each `(server, name)` pair so a returning
/// player doesn't have to retype it. Kept in the clear, like a browser's saved
/// logins: it is a convenience cache.
pub struct Credentials {
    entries: Vec<(String, String)>,
}

impl Credentials {
    /// Every key is stored once.
    #[verifier::type_invariant]
    spec fn keys_unique(self) -> bool {
        unique_keys(self.entries@)
    }
}

impl View for Credentials {
    type V = Map<Seq<char>, Seq<char>>;

    open spec fn view(&self) -> Map<Seq<char>, Seq<char>> {
        login_map(self.saved_logins())
    }
}

impl Credentials {
    /// The saved `(key, password)` entries, in the order they are saved; no
    /// key occurs twice.
    pub closed spec fn saved_logins(&self) -> Seq<(String, String)> {
        self.entries@
    }
}

/// The first occurrence of `c` in `t`: its index.
fn find_char(t: &[char], c: char) -> (r: Option<usize>)
    ensures
        r matches Some(i) ==> first_index_of(t@, c) == Some(i as int) && i < t@.len(),
        r is None ==> first_index_of(t@, c) is None,
{
    let mut i: usize = 0;
    while i < t.len()
        invariant
            i <= t@.len(),
            first_index_of(t@.take(i as int), c) is None,
        decreases t@.len() - i,
    {
        proof {
            assert(t@.take(i + 1).drop_last() =~= t@.take(i as int));
        }
        if t[i] == c {
            proof {
                lemma_first_index_prefix(t@, c, i as int + 1);
            }
            return Some(i);
        }
        i += 1;
    }
    assert(t@.take(i as int) =~= t@);
    None
}

pub(crate) proof fn lemma_first_index_prefix(t: Seq<char>, c: char, k: int)
    requires
        0 <= k <= t.len(),
        first_index_of(t.take(k), c) is Some,
    ensures
        first_index_of(t, c) == first_index_of(t.take(k), c),
    decreases t.len(),
{
    if k < t.len() {
        assert(t.drop_last().take(k) =~= t.take(k));
        lemma_first_index_prefix(t.drop_last(), c, k);
    } else {
        assert(t.take(k) =~= t);
    }
}

/// Whether `c` occurs in `t`.
fn contains_char(t: &[char], c: char) -> (r: bool)
    ensures
        r == t@.contains(c),
{
    let mut i: usize = 0;
    while i < t.len()
        invariant
            i <= t@.len(),
            forall|j: int| 0 <= j < i ==> t@[j] != c,
        decreases t@.len() - i,
    {
        if t[i] == c {
            assert(t@[i as int] == c);
            return true;
        }
        i += 1;
    }
    false
}

/// The chars of `cs` from `from` to `to`.
fn copy_range(cs: &[char], from: usize, to: usize) -> (r: Vec<char>)
    requires
        from <= to <= cs@.len(),
    ensures
        r@ == cs@.subrange(from as int, to as int),
{
    let mut out: Vec<char> = Vec::new();
    let mut k = from;
    while k < to
        invariant
            from <= k <= to,
            to <= cs@.len(),
            out@ == cs@.subrange(from as int, k as int),
        decreases to - k,
    {
        out.push(cs[k]);
        k += 1;
        assert(out@ =~= cs@.subrange(from as int, k as int));
    }
    out
}

impl Credentials {
    /// An empty store.
    pub fn new() -> (r: Self)
        ensures
            r@ == Map::<Seq<char>, Seq<char>>::empty(),
    {
        Credentials { entries: Vec::new() }
    }

    /// The file text this store is saved as: a comment line, then one
    /// `key<TAB>password` line per entry that fits on one line; entries that do
    /// not fit are left out.
    pub open spec fn file_text(&self) -> Seq<char> {
        CREDENTIALS_HEADER@ + login_lines(self.saved_logins())
    }

    /// Build the lookup key for a `(server label, player name)` pair.
    fn key(host: &str, name: &str) -> (r: String)
        ensures
            r@ == login_key(host@, name@),
    {
        let mut out = to_chars(host);
        out.push('\0');
        let n = to_chars(name);
        append_chars(&mut out, n.as_slice());
        assert(out@ =~= login_key(host@, name@));
        from_chars(out.as_slice())
    }

    /// The saved password for `(host, name)`, if any.
    pub fn get(&self, host: &str, name: &str) -> (r: Option<&str>)
        ensures
            match r {
                Some(p) => self@.contains_key(login_key(host@, name@)) && self@[login_key(host@, name@)] == p@,
                None => !self@.contains_key(login_key(host@, name@)),
            },
    {
        let key = Self::key(host, name);
        let ghost k = login_key(host@, name@);
        let mut i = self.entries.len();
        while i > 0
            invariant
                i <= self.entries@.len(),
                key@ == k,
                k == login_key(host@, name@),
                forall|j: int| i <= j < self.entries@.len() ==> (#[trigger] self.entries@[j]).0@ != k,
            decreases i,
        {
            i -= 1;
            if self.entries[i].0 == key {
                proof {
                    lemma_login_map_found(self.entries@, k, i as int);
                }
                let p = self.entries[i].1.as_str();
                assert(p@ == self.entries@[i as int].1@);
                return Some(p);
            }
        }
        proof {
            lemma_login_map_keys(self.entries@, k);
        }
        None
    }

    /// Whether any saved login exists for player `name` on *any* server.
    pub fn has_any_for_name(&self, name: &str) -> (r: bool)
        ensures
            r == exists|k: Seq<char>| self@.contains_key(k) && #[trigger] ends_with(k, seq!['\0'] + name@),
    {
        let mut suffix: Vec<char> = Vec::new();
        suffix.push('\0');
        let n = to_chars(name);
        append_chars(&mut suffix, n.as_slice());
        let ghost sfx = seq!['\0'] + name@;
        assert(suffix@ =~= sfx);
        let m = suffix.len();
        let mut i: usize = 0;
        while i < self.entries.len()
            invariant
                i <= self.entries@.len(),
                suffix@ == sfx,
                sfx == seq!['\0'] + name@,
                m == sfx.len(),
                forall|j: int| 0 <= j < i ==> !ends_with((#[trigger] self.entries@[j]).0@, sfx),
            decreases self.entries@.len() - i,
        {
            let k = to_chars(self.entries[i].0.as_str());
            if k.len() >= m {
                let tail = copy_range(k.as_slice(), k.len() - m, k.len());
                if crate::text::chars_eq(tail.as_slice(), suffix.as_slice()) {
                    proof {
                        let key = self.entries@[i as int].0@;
                        assert(tail@ =~= key.skip(key.len() - sfx.len()));
                        lemma_login_map_keys(self.entries@, key);
                        assert(self@.contains_key(key) && ends_with(key, sfx));
                        assert(self@.contains_key(key) && ends_with(key, seq!['\0'] + name@));
                    }
                    return true;
                }
                proof {
                    let key = self.entries@[i as int].0@;
                    assert(tail@ =~= key.skip(key.len() - sfx.len()));
                }
            }
            i += 1;
        }
        proof {
            assert forall|k: Seq<char>| self@.contains_key(k) implies !#[trigger] ends_with(k, sfx) by {
                lemma_login_map_keys(self.entries@, k);
                let j = choose|j: int| 0 <= j < self.entries@.len() && (#[trigger] self.entries@[j]).0@ == k;
                assert(!ends_with(self.entries@[j].0@, sfx));
            }
        }
        false
    }

    /// Record `password` under `key`, replacing any earlier one.
    fn put(&mut self, key: String, password: &str)
        ensures
            final(self)@ == old(self)@.insert(key@, password@),
    {
        proof {
            use_type_invariant(&*self);
        }
        let ghost k = key@;
        let mut kept: Vec<(String, String)> = Vec::new();
        let mut i: usize = 0;
        while i < self.entries.len()
            invariant
                i <= self.entries@.len(),
                key@ == k,
                kept@ == logins_without(self.entries@.take(i as int), k),
            decreases self.entries@.len() - i,
        {
            proof {
                assert(self.entries@.take(i + 1).drop_last() =~= self.entries@.take(i as int));
            }
            if !(self.entries[i].0 == key) {
                let a = self.entries[i].0.clone();
                let b = self.entries[i].1.clone();
                kept.push((a, b));
            }
            i += 1;
        }
        proof {
            assert(self.entries@.take(i as int) =~= self.entries@);
            lemma_logins_without(self.entries@, k);
            lemma_logins_without_props(self.entries@, k);
        }
        let ghost before = kept@;
        kept.push((key, password.to_owned()));
        proof {
            assert(kept@.drop_last() =~= before);
            assert(login_map(kept@) =~= login_map(old(self).entries@).insert(k, password@));
            assert forall|a: int, b: int| 0 <= a < b < kept@.len() implies kept@[a].0@ != kept@[b].0@ by {
                if b < before.len() {
                    assert(kept@[a] == before[a] && kept@[b] == before[b]);
                } else {
                    assert(kept@[a] == before[a]);
                    assert(before[a].0@ != k);
                }
            }
        }
        self.entries = kept;
    }

    /// The text this store is saved as. When every saved login is plain (see
    /// `plain_login`), reading that text back gives exactly this store.
    pub fn to_text(&self) -> (r: String)
        ensures
            r@ == self.file_text(),
            (forall|k: Seq<char>| self@.contains_key(k) ==> plain_login(k, self@[k]))
                ==> parse_login_lines(crate::text::text_lines(r@)) == self@,
            unique_keys(self.saved_logins()),
    {
        proof {
            use_type_invariant(self);
            assert(self.saved_logins() == self.entries@);
            assert(self@ == login_map(self.entries@));
            if forall|k: Seq<char>| self@.contains_key(k) ==> plain_login(k, self@[k]) {
                lemma_credentials_text(self.entries@);
            }
        }
        let mut out = to_chars(CREDENTIALS_HEADER);
        let mut i: usize = 0;
        while i < self.entries.len()
            invariant
                i <= self.entries@.len(),
                out@ == CREDENTIALS_HEADER@ + login_lines(self.entries@.take(i as int)),
            decreases self.entries@.len() - i,
        {
            proof {
                assert(self.entries@.take(i + 1).drop_last() =~= self.entries@.take(i as int));
            }
            let key = to_chars(self.entries[i].0.as_str());
            let password = to_chars(self.entries[i].1.as_str());
            if !(contains_char(password.as_slice(), '\t') || contains_char(password.as_slice(), '\n')
                || contains_char(key.as_slice(), '\n')) {
                append_chars(&mut out, key.as_slice());
                out.push('\t');
                append_chars(&mut out, password.as_slice());
                out.push('\n');
            }
            i += 1;
            proof {
                assert(out@ =~= CREDENTIALS_HEADER@ + login_lines(self.entries@.take(i as int)));
            }
        }
        assert(self.entries@.take(i as int) =~= self.entries@);
        from_chars(out.as_slice())
    }

    /// Remember `password` for `(host, name)`. Returns the store's new file text
    /// to persist, or `None` when that password was already stored (nothing
    /// changed, so nothing needs rewriting).
    pub fn add_and_save(&mut self, host: &str, name: &str, password: &str) -> (r: Option<String>)
        ensures
            final(self)@ == old(self)@.insert(login_key(host@, name@), password@),
            r is None <==> (old(self)@.contains_key(login_key(host@, name@))
                && old(self)@[login_key(host@, name@)] == password@),
            r matches Some(t) ==> t@ == final(self).file_text(),
            r matches Some(t) ==> ((forall|k: Seq<char>| final(self)@.contains_key(k) ==> plain_login(k, final(self)@[k]))
                ==> parse_login_lines(crate::text::text_lines(t@)) == final(self)@),
    {
        let key = Self::key(host, name);
        let unchanged = match self.get(host, name) {
            Some(p) => {
                let a = to_chars(p);
                let b = to_chars(password);
                crate::text::chars_eq(a.as_slice(), b.as_slice())
            },
            None => false,
        };
        if unchanged {
            proof {
                assert(old(self)@.insert(login_key(host@, name@), password@) =~= old(self)@);
            }
            return None;
        }
        self.put(key, password);
        Some(self.to_text())
    }

    /// Read a store from the text of a saved-logins file: one
    /// `key<TAB>password` per line; empty lines, comments and lines without a
    /// tab are skipped.
    pub fn from_text(text: &str) -> (r: Self)
        ensures
            r@ == parse_login_lines(crate::text::text_lines(text@)),
    {
        let cs = to_chars(text);
        let ls = crate::text::lines(cs.as_slice());
        let ghost tl = crate::text::text_lines(text@);
        let mut creds = Credentials::new();
        let mut i: usize = 0;
        while i < ls.len()
            invariant
                i <= ls@.len(),
                ls@.len() == tl.len(),
                forall|j: int| 0 <= j < ls@.len() ==> (#[trigger] ls@[j])@ == tl[j],
                creds@ == parse_login_lines(tl.take(i as int)),
            decreases ls@.len() - i,
        {
            proof {
                assert(tl.take(i + 1).drop_last() =~= tl.take(i as int));
                assert(tl.take(i + 1).last() == tl[i as int]);
            }
            let l = &ls[i];
            if l.len() > 0 && l[0] != '#' {
                match find_char(l.as_slice(), '\t') {
                    Some(t) => {
                        let k = copy_range(l.as_slice(), 0, t);
                        let p = copy_range(l.as_slice(), t + 1, l.len());
                        proof {
                            assert(k@ =~= l@.take(t as int));
                            assert(p@ =~= l@.skip(t + 1));
                        }
                        let ks = from_chars(k.as_slice());
                        let ps = from_chars(p.as_slice());
                        creds.put(ks, ps.as_str());
                    },
                    None => {},
                }
            }
            i += 1;
        }
        assert(tl.take(i as int) =~= tl);
        creds
    }
}

/// After a password is remembered for a `(server, name)` pair, looking that
/// pair up gives the password, and the name counts as having a saved login.
pub proof fn law_remembered_login_is_found(
    m: Map<Seq<char>, Seq<char>>,
    host: Seq<char>,
    name: Seq<char>,
    password: Seq<char>,
)
    ensures
        m.insert(login_key(host, name), password).contains_key(login_key(host, name)),
        m.insert(login_key(host, name), password)[login_key(host, name)] == password,
        ends_with(login_key(host, name), seq!['\0'] + name),
{
    assert(login_key(host, name).skip(login_key(host, name).len() - (seq!['\0'] + name).len()) =~= seq!['\0'] + name);
}

} // verus!
