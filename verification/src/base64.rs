//! Base64 codec for binary mesh data: a byte-to-text alphabet engine and a
//! typed-array framing layer that prefixes each payload with an 8-byte
//! length header in a caller-selected endianness.

use crate::CodecError;
use vstd::prelude::*;

verus! {

/// Endianness selector: least-significant byte first.
pub const LITTLE_ENDIAN: u8 = 0;
/// Endianness selector: most-significant byte first.
pub const BIG_ENDIAN: u8 = 1;

/// The character that pads base64 text to a multiple of four characters.
pub const PAD: char = '=';

/// The six-bit value `v` as a character of the base64 alphabet
/// `A`-`Z`, `a`-`z`, `0`-`9`, `+`, `/` (indexed 0 to 63).
pub open spec fn b64_char(v: u8) -> char
    recommends
        v < 64,
{
    if v < 26 {
        (v + 65) as char  // 'A' to 'Z'
    } else if v < 52 {
        (v + 71) as char  // 'a' to 'z'
    } else if v < 62 {
        (v - 4) as char  // '0' to '9'
    } else if v == 62 {
        '+'
    } else {
        '/'
    }
}

/// The six-bit value that character `c` decodes to: the inverse of
/// `b64_char` on the alphabet. Padding and every character outside the
/// alphabet decode to zero; malformed text thus yields garbage bytes
/// rather than an error.
pub open spec fn b64_val(c: char) -> u8 {
    let x = c as u32;
    if 65 <= x && x <= 90 {
        (x - 65) as u8  // 'A' to 'Z'
    } else if 97 <= x && x <= 122 {
        (x - 71) as u8  // 'a' to 'z'
    } else if 48 <= x && x <= 57 {
        (x + 4) as u8  // '0' to '9'
    } else if x == 43 {
        62  // '+'
    } else if x == 47 {
        63  // '/'
    } else {
        0
    }
}

/// Decoding inverts encoding on every six-bit value.
pub proof fn lemma_b64_char_val(v: u8)
    requires
        v < 64,
    ensures
        b64_val(b64_char(v)) == v,
{
}

/// Maps a six-bit value to its alphabet character.
fn encode_char(v: u8) -> (c: char)
    requires
        v < 64,
    ensures
        c == b64_char(v),
{
    if v < 26 {
        (v + 65) as char
    } else if v < 52 {
        (v + 71) as char
    } else if v < 62 {
        (v - 4) as char
    } else if v == 62 {
        '+'
    } else {
        '/'
    }
}

/// Maps a character to the six-bit value it decodes to.
fn decode_char(c: char) -> (v: u8)
    ensures
        v == b64_val(c),
{
    let x = c as u32;
    if 65 <= x && x <= 90 {
        (x - 65) as u8
    } else if 97 <= x && x <= 122 {
        (x - 71) as u8
    } else if 48 <= x && x <= 57 {
        (x + 4) as u8
    } else if x == 43 {
        62
    } else if x == 47 {
        63
    } else {
        0
    }
}

/// Relies on `String::push`: appends exactly one character at the end.
#[verifier::external_body]
fn push_char(s: &mut String, c: char)
    ensures
        final(s)@ == old(s)@.push(c),
{
    s.push(c)
}

/// The byte at index `i` of `b`, or zero past the end: the missing bytes
/// of a trailing partial group are zero-filled.
pub open spec fn byte_or_zero(b: Seq<u8>, i: int) -> u8 {
    if 0 <= i < b.len() {
        b[i]
    } else {
        0
    }
}

/// The number of characters that encoding `n` bytes produces: four
/// characters for every three bytes, rounded up.
pub open spec fn encoded_len(n: nat) -> nat {
    4 * ((n + 2) / 3)
}

/// Character `j` of the base64 encoding of `b`: group `j / 4` encodes
/// bytes `3 * (j / 4)` onward, and positions that would need bytes past
/// the end of `b` hold the padding character.
#[verifier::opaque]
pub open spec fn enc_char_at(b: Seq<u8>, j: int) -> char {
    let g = j / 4;
    let v0 = byte_or_zero(b, 3 * g);
    let v1 = byte_or_zero(b, 3 * g + 1);
    let v2 = byte_or_zero(b, 3 * g + 2);
    if j % 4 == 0 {
        b64_char(v0 >> 2)
    } else if j % 4 == 1 {
        b64_char(((v0 & 0x03) << 4) | (v1 >> 4))
    } else if j % 4 == 2 {
        if 3 * g + 1 < b.len() {
            b64_char(((v1 & 0x0f) << 2) | (v2 >> 6))
        } else {
            PAD
        }
    } else {
        if 3 * g + 2 < b.len() {
            b64_char(v2 & 0x3f)
        } else {
            PAD
        }
    }
}

/// The base64 text that encodes byte sequence `b`.
pub open spec fn b64_encode(b: Seq<u8>) -> Seq<char> {
    Seq::new(encoded_len(b.len()), |j: int| enc_char_at(b, j))
}

/// The number of bytes that decoding `n` characters produces: six bits
/// per character, eight bits per byte, rounded down.
pub open spec fn decoded_len(n: nat) -> nat {
    n * 6 / 8
}

/// Byte `k` of the decoding of `text`: each full group of four characters
/// yields three bytes, and output bytes past the last full group stay
/// zero.
#[verifier::opaque]
pub open spec fn dec_byte_at(text: Seq<char>, k: int) -> u8 {
    let g = k / 3;
    if 0 <= g < text.len() / 4 {
        let d0 = b64_val(text[4 * g]);
        let d1 = b64_val(text[4 * g + 1]);
        let d2 = b64_val(text[4 * g + 2]);
        let d3 = b64_val(text[4 * g + 3]);
        if k % 3 == 0 {
            ((d0 & 0x3f) << 2) | ((d1 & 0x30) >> 4)
        } else if k % 3 == 1 {
            ((d1 & 0x0f) << 4) | ((d2 & 0x3c) >> 2)
        } else {
            ((d2 & 0x03) << 6) | (d3 & 0x3f)
        }
    } else {
        0
    }
}

/// The byte sequence that base64 text `text` decodes to.
pub open spec fn b64_decode(text: Seq<char>) -> Seq<u8> {
    Seq::new(decoded_len(text.len()), |k: int| dec_byte_at(text, k))
}

/// Every six-bit combination that the encoder forms stays below 64.
proof fn lemma_six_bit_bounds()
    by (bit_vector)
    ensures
        forall|a: u8| (#[trigger] (a >> 2)) < 64,
        forall|a: u8| (#[trigger] (a & 0x3f)) < 64,
        forall|a: u8, b: u8| (#[trigger] (((a & 0x03) << 4) | (b >> 4))) < 64,
        forall|a: u8, b: u8| (#[trigger] (((a & 0x0f) << 2) | (b >> 6))) < 64,
{
}

/// Each byte of a three-byte group is recovered from the six-bit values
/// that encoded the group.
proof fn lemma_group_bits(v0: u8, v1: u8, v2: u8)
    by (bit_vector)
    ensures
        (((v0 >> 2) & 0x3f) << 2) | (((((v0 & 0x03) << 4) | (v1 >> 4)) & 0x30) >> 4) == v0,
        (((((v0 & 0x03) << 4) | (v1 >> 4)) & 0x0f) << 4) | (((((v1 & 0x0f) << 2) | (v2 >> 6))
            & 0x3c) >> 2) == v1,
        (((((v1 & 0x0f) << 2) | (v2 >> 6)) & 0x03) << 6) | ((v2 & 0x3f) & 0x3f) == v2,
{
}

/// Byte `k` of the decoding of the encoding of `b` is byte `k` of `b`.
proof fn lemma_dec_enc_byte(b: Seq<u8>, k: int)
    requires
        0 <= k < b.len(),
    ensures
        dec_byte_at(b64_encode(b), k) == b[k],
{
    reveal(crate::base64::enc_char_at);
    reveal(crate::base64::dec_byte_at);
    let text = b64_encode(b);
    let n = b.len() as int;
    let m = (n + 2) / 3;
    let g = k / 3;
    let v0 = byte_or_zero(b, 3 * g);
    let v1 = byte_or_zero(b, 3 * g + 1);
    let v2 = byte_or_zero(b, 3 * g + 2);
    assert(text.len() == 4 * m);
    assert(0 <= g < m);
    assert(text[4 * g] == enc_char_at(b, 4 * g));
    assert(text[4 * g + 1] == enc_char_at(b, 4 * g + 1));
    assert(text[4 * g + 2] == enc_char_at(b, 4 * g + 2));
    assert(text[4 * g + 3] == enc_char_at(b, 4 * g + 3));
    lemma_six_bit_bounds();
    let d0 = b64_val(text[4 * g]);
    let d1 = b64_val(text[4 * g + 1]);
    let d2 = b64_val(text[4 * g + 2]);
    let d3 = b64_val(text[4 * g + 3]);
    lemma_b64_char_val(v0 >> 2);
    lemma_b64_char_val(((v0 & 0x03) << 4) | (v1 >> 4));
    assert(d0 == v0 >> 2);
    assert(d1 == ((v0 & 0x03) << 4) | (v1 >> 4));
    lemma_group_bits(v0, v1, v2);
    if k % 3 == 0 {
        assert(dec_byte_at(text, k) == ((d0 & 0x3f) << 2) | ((d1 & 0x30) >> 4));
        assert(b[k] == v0);
    } else if k % 3 == 1 {
        assert(3 * g + 1 == k < n);
        lemma_b64_char_val(((v1 & 0x0f) << 2) | (v2 >> 6));
        assert(d2 == ((v1 & 0x0f) << 2) | (v2 >> 6));
        assert(dec_byte_at(text, k) == ((d1 & 0x0f) << 4) | ((d2 & 0x3c) >> 2));
        assert(b[k] == v1);
    } else {
        assert(3 * g + 2 == k < n);
        lemma_b64_char_val(((v1 & 0x0f) << 2) | (v2 >> 6));
        lemma_b64_char_val(v2 & 0x3f);
        assert(d2 == ((v1 & 0x0f) << 2) | (v2 >> 6));
        assert(d3 == v2 & 0x3f);
        assert(dec_byte_at(text, k) == ((d2 & 0x03) << 6) | (d3 & 0x3f));
        assert(b[k] == v2);
    }
}

/// Raw round-trip law: decoding the encoding of any byte sequence `b`
/// yields `b` followed only by zero fill, so the first `b.len()` bytes
/// are exactly `b`; when `b.len()` is a multiple of three the decoding
/// is exactly `b`.
pub proof fn lemma_raw_round_trip(b: Seq<u8>)
    ensures
        b64_decode(b64_encode(b)).len() == 3 * ((b.len() + 2) / 3),
        b.len() <= b64_decode(b64_encode(b)).len(),
        b64_decode(b64_encode(b)).take(b.len() as int) == b,
        b.len() % 3 == 0 ==> b64_decode(b64_encode(b)) == b,
{
    let text = b64_encode(b);
    let n = b.len() as int;
    let m = (n + 2) / 3;
    assert(text.len() == 4 * m);
    assert(b64_decode(text).len() == 3 * m);
    assert forall|k: int| 0 <= k < n implies b64_decode(text)[k] == b[k] by {
        lemma_dec_enc_byte(b, k);
    }
    assert(b64_decode(text).take(n) =~= b);
    if b.len() % 3 == 0 {
        assert(b64_decode(text) =~= b);
    }
}

/// Encodes an arbitrary byte sequence as base64 text: three bytes per
/// four characters, zero-filled and padded at the end.
pub fn encode_u8_raw(v: &Vec<u8>) -> (s: String)
    ensures
        s@ == b64_encode(v@),
{
    let n = v.len();
    // Divide by three and round up
    let len: usize = n / 3 + if n % 3 == 0 {
        0usize
    } else {
        1usize
    };
    proof {
        assert(len == (n + 2) / 3);
    }
    let mut s = String::new();
    for i in 0..len
        invariant
            len == (v@.len() + 2) / 3,
            n == v@.len(),
            s@.len() == 4 * i,
            forall|j: int| 0 <= j < 4 * i ==> s@[j] == enc_char_at(v@, j),
    {
        proof {
            reveal(crate::base64::enc_char_at);
            lemma_six_bit_bounds();
        }
        let i0 = 3 * i;
        let v0 = v[i0];
        let has1 = i0 + 1 < n;
        let v1 = if has1 {
            v[i0 + 1]
        } else {
            0
        };
        let has2 = if has1 {
            i0 + 2 < n
        } else {
            false
        };
        let v2 = if has2 {
            v[i0 + 2]
        } else {
            0
        };

        let c0 = encode_char(v0 >> 2);
        let c1 = encode_char(((v0 & 0x03) << 4) | (v1 >> 4));
        push_char(&mut s, c0);
        push_char(&mut s, c1);

        // Anywhere from zero to two padding characters close the group
        if has1 {
            let c2 = encode_char(((v1 & 0x0f) << 2) | (v2 >> 6));
            push_char(&mut s, c2);
        } else {
            push_char(&mut s, PAD);
        }
        if has2 {
            let c3 = encode_char(v2 & 0x3f);
            push_char(&mut s, c3);
        } else {
            push_char(&mut s, PAD);
        }
    }
    proof {
        assert(s@ =~= b64_encode(v@));
    }
    s
}

/// Decodes base64 text to bytes. Four characters yield three bytes;
/// characters of a trailing group shorter than four are ignored and the
/// corresponding output bytes stay zero, so the result is deterministic
/// for every input length.
pub fn decode_u8_raw(s: &str) -> (v: Vec<u8>)
    ensures
        v@ == b64_decode(s@),
{
    let n = s.unicode_len();
    // Six bits per base64 character, eight bits per u8
    let q: usize = n / 4;
    let r: usize = n % 4;
    let vlen: usize = 3 * q + if r == 2 {
        1usize
    } else if r == 3 {
        2usize
    } else {
        0usize
    };
    proof {
        assert(vlen == decoded_len(s@.len()));
        assert(vlen / 3 == q);
    }
    let ngroups: usize = vlen / 3;
    let mut v: Vec<u8> = Vec::new();
    for i in 0..ngroups
        invariant
            n == s@.len(),
            ngroups == s@.len() / 4,
            v@.len() == 3 * i,
            forall|k: int| 0 <= k < 3 * i ==> v@[k] == dec_byte_at(s@, k),
    {
        proof {
            reveal(crate::base64::dec_byte_at);
        }
        let d0 = decode_char(s.get_char(4 * i));
        let d1 = decode_char(s.get_char(4 * i + 1));
        let d2 = decode_char(s.get_char(4 * i + 2));
        let d3 = decode_char(s.get_char(4 * i + 3));

        v.push(((d0 & 0x3f) << 2) | ((d1 & 0x30) >> 4));
        v.push(((d1 & 0x0f) << 4) | ((d2 & 0x3c) >> 2));
        v.push(((d2 & 0x03) << 6) | (d3 & 0x3f));
    }
    // A trailing group shorter than four characters leaves its bytes zero
    while v.len() < vlen
        invariant
            n == s@.len(),
            vlen == decoded_len(s@.len()),
            3 * (s@.len() / 4) <= v@.len() <= vlen,
            forall|k: int| 0 <= k < v@.len() ==> v@[k] == dec_byte_at(s@, k),
        decreases vlen - v.len(),
    {
        proof {
            reveal(crate::base64::dec_byte_at);
        }
        v.push(0);
    }
    proof {
        assert(v@ =~= b64_decode(s@));
    }
    v
}

/// True when `e` selects big-endian byte order; every other value
/// selects little-endian, as the loader defaults unrecognized byte-order
/// tags to little-endian.
pub open spec fn is_big(e: u8) -> bool {
    e == BIG_ENDIAN
}

/// The eight bytes of `x`, least-significant first.
pub open spec fn u64_le_bytes(x: u64) -> Seq<u8> {
    seq![
        (x & 0xff) as u8,
        ((x >> 8) & 0xff) as u8,
        ((x >> 16) & 0xff) as u8,
        ((x >> 24) & 0xff) as u8,
        ((x >> 32) & 0xff) as u8,
        ((x >> 40) & 0xff) as u8,
        ((x >> 48) & 0xff) as u8,
        ((x >> 56) & 0xff) as u8,
    ]
}

/// The eight bytes of `x` in the order that endianness `e` selects.
pub open spec fn u64_bytes(x: u64, e: u8) -> Seq<u8> {
    if is_big(e) {
        u64_le_bytes(x).reverse()
    } else {
        u64_le_bytes(x)
    }
}

/// The unsigned 64-bit value read from eight little-endian bytes.
pub open spec fn u64_from_le_bytes(s: Seq<u8>) -> u64
    recommends
        s.len() == 8,
{
    (s[0] as u64) | ((s[1] as u64) << 8) | ((s[2] as u64) << 16) | ((s[3] as u64) << 24) | ((
    s[4] as u64) << 32) | ((s[5] as u64) << 40) | ((s[6] as u64) << 48) | ((s[7] as u64) << 56)
}

/// The unsigned 64-bit value read from eight bytes laid out in the order
/// that endianness `e` selects.
pub open spec fn u64_from_bytes(s: Seq<u8>, e: u8) -> u64
    recommends
        s.len() == 8,
{
    if is_big(e) {
        u64_from_le_bytes(s.reverse())
    } else {
        u64_from_le_bytes(s)
    }
}

/// Reading eight bytes back gives the value they were written from, for
/// either endianness.
pub proof fn lemma_u64_bytes_round_trip(x: u64, e: u8)
    ensures
        u64_bytes(x, e).len() == 8,
        u64_from_bytes(u64_bytes(x, e), e) == x,
{
    let s = u64_le_bytes(x);
    assert(x == ((x & 0xff) as u8 as u64) | (((x >> 8) & 0xff) as u8 as u64) << 8 | (((x >> 16)
        & 0xff) as u8 as u64) << 16 | (((x >> 24) & 0xff) as u8 as u64) << 24 | (((x >> 32)
        & 0xff) as u8 as u64) << 32 | (((x >> 40) & 0xff) as u8 as u64) << 40 | (((x >> 48)
        & 0xff) as u8 as u64) << 48 | (((x >> 56) & 0xff) as u8 as u64) << 56) by (bit_vector);
    if is_big(e) {
        assert(s.reverse().reverse() =~= s);
    }
}

/// Endianness symmetry of the header layout: the big-endian bytes of a
/// value are exactly the little-endian bytes reversed.
pub proof fn lemma_header_endianness_swap(x: u64)
    ensures
        u64_bytes(x, BIG_ENDIAN) == u64_bytes(x, LITTLE_ENDIAN).reverse(),
{
}

/// Writes the eight bytes of `x` into `bytes` at `pos`, in the order
/// that `endianness` selects, leaving every other byte unchanged.
fn write_u64_at(bytes: &mut Vec<u8>, pos: usize, x: u64, endianness: u8)
    requires
        pos + 8 <= old(bytes)@.len(),
    ensures
        final(bytes)@.len() == old(bytes)@.len(),
        final(bytes)@.subrange(pos as int, pos + 8) == u64_bytes(x, endianness),
        forall|j: int|
            0 <= j < old(bytes)@.len() && !(pos <= j < pos + 8) ==> final(bytes)@[j] == old(
                bytes,
            )@[j],
{
    let n = bytes.len();  // pins the buffer length as a usize, bounding the positions below
    if endianness == BIG_ENDIAN {
        bytes[pos] = ((x >> 56) & 0xff) as u8;
        bytes[pos + 1] = ((x >> 48) & 0xff) as u8;
        bytes[pos + 2] = ((x >> 40) & 0xff) as u8;
        bytes[pos + 3] = ((x >> 32) & 0xff) as u8;
        bytes[pos + 4] = ((x >> 24) & 0xff) as u8;
        bytes[pos + 5] = ((x >> 16) & 0xff) as u8;
        bytes[pos + 6] = ((x >> 8) & 0xff) as u8;
        bytes[pos + 7] = (x & 0xff) as u8;
        proof {
            assert(bytes@.subrange(pos as int, pos + 8) =~= u64_bytes(x, endianness));
        }
    } else {
        bytes[pos] = (x & 0xff) as u8;
        bytes[pos + 1] = ((x >> 8) & 0xff) as u8;
        bytes[pos + 2] = ((x >> 16) & 0xff) as u8;
        bytes[pos + 3] = ((x >> 24) & 0xff) as u8;
        bytes[pos + 4] = ((x >> 32) & 0xff) as u8;
        bytes[pos + 5] = ((x >> 40) & 0xff) as u8;
        bytes[pos + 6] = ((x >> 48) & 0xff) as u8;
        bytes[pos + 7] = ((x >> 56) & 0xff) as u8;
        proof {
            assert(bytes@.subrange(pos as int, pos + 8) =~= u64_bytes(x, endianness));
        }
    }
}

/// Reads the unsigned 64-bit value whose eight bytes sit in `bytes` at
/// `pos`, in the order that `endianness` selects.
fn read_u64_at(bytes: &Vec<u8>, pos: usize, endianness: u8) -> (x: u64)
    requires
        pos + 8 <= bytes@.len(),
    ensures
        x == u64_from_bytes(bytes@.subrange(pos as int, pos + 8), endianness),
{
    let n = bytes.len();  // pins the buffer length as a usize, bounding the positions below
    proof {
        let s = bytes@.subrange(pos as int, pos + 8);
        if is_big(endianness) {
            assert(s.reverse() =~= seq![s[7], s[6], s[5], s[4], s[3], s[2], s[1], s[0]]);
        }
    }
    if endianness == BIG_ENDIAN {
        (bytes[pos + 7] as u64) | ((bytes[pos + 6] as u64) << 8) | ((bytes[pos + 5] as u64) << 16)
            | ((bytes[pos + 4] as u64) << 24) | ((bytes[pos + 3] as u64) << 32) | ((bytes[pos
            + 2] as u64) << 40) | ((bytes[pos + 1] as u64) << 48) | ((bytes[pos] as u64) << 56)
    } else {
        (bytes[pos] as u64) | ((bytes[pos + 1] as u64) << 8) | ((bytes[pos + 2] as u64) << 16) | ((
        bytes[pos + 3] as u64) << 24) | ((bytes[pos + 4] as u64) << 32) | ((bytes[pos
            + 5] as u64) << 40) | ((bytes[pos + 6] as u64) << 48) | ((bytes[pos + 7] as u64) << 56)
    }
}

/// Allocates the byte buffer for a payload of `blen` bytes and writes
/// `blen` itself into the first eight bytes in the order that
/// `endianness` selects; the payload region starts out zeroed.
pub fn encode_u64_len(endianness: u8, blen: u64) -> (bytes: Vec<u8>)
    requires
        blen + 8 <= usize::MAX,
    ensures
        bytes@.len() == blen + 8,
        bytes@.subrange(0, 8) == u64_bytes(blen, endianness),
        forall|j: int| 8 <= j < bytes@.len() ==> bytes@[j] == 0,
{
    let total: usize = (blen as usize) + 8;
    let mut bytes: Vec<u8> = Vec::new();
    while bytes.len() < total
        invariant
            bytes@.len() <= total,
            forall|j: int| 0 <= j < bytes@.len() ==> bytes@[j] == 0,
        decreases total - bytes@.len(),
    {
        bytes.push(0);
    }
    write_u64_at(&mut bytes, 0, blen, endianness);
    bytes
}

/// Reads the payload byte length back from the first eight bytes of a
/// decoded buffer.
pub fn decode_u64_len(bytes: &Vec<u8>, endianness: u8) -> (blen: u64)
    requires
        bytes@.len() >= 8,
    ensures
        blen == u64_from_bytes(bytes@.subrange(0, 8), endianness),
{
    read_u64_at(bytes, 0, endianness)
}

/// The four bytes of `x`, least-significant first.
pub open spec fn u32_le_bytes(x: u32) -> Seq<u8> {
    seq![
        (x & 0xff) as u8,
        ((x >> 8) & 0xff) as u8,
        ((x >> 16) & 0xff) as u8,
        ((x >> 24) & 0xff) as u8,
    ]
}

/// The four bytes of `x` in the order that endianness `e` selects.
pub open spec fn u32_bytes(x: u32, e: u8) -> Seq<u8> {
    if is_big(e) {
        u32_le_bytes(x).reverse()
    } else {
        u32_le_bytes(x)
    }
}

/// The 32-bit value read from four bytes laid out in the order that
/// endianness `e` selects.
pub open spec fn u32_from_bytes(s: Seq<u8>, e: u8) -> u32
    recommends
        s.len() == 4,
{
    if is_big(e) {
        (s[3] as u32) | ((s[2] as u32) << 8) | ((s[1] as u32) << 16) | ((s[0] as u32) << 24)
    } else {
        (s[0] as u32) | ((s[1] as u32) << 8) | ((s[2] as u32) << 16) | ((s[3] as u32) << 24)
    }
}

/// Reading four bytes back gives the value they were written from, for
/// either endianness.
pub proof fn lemma_u32_bytes_round_trip(x: u32, e: u8)
    ensures
        u32_bytes(x, e).len() == 4,
        u32_from_bytes(u32_bytes(x, e), e) == x,
{
    assert(x == ((x & 0xff) as u8 as u32) | (((x >> 8) & 0xff) as u8 as u32) << 8 | (((x >> 16)
        & 0xff) as u8 as u32) << 16 | (((x >> 24) & 0xff) as u8 as u32) << 24) by (bit_vector);
}

/// Writes the four bytes of `x` into `bytes` at `pos`, in the order
/// that `endianness` selects, leaving every other byte unchanged.
fn write_u32_at(bytes: &mut Vec<u8>, pos: usize, x: u32, endianness: u8)
    requires
        pos + 4 <= old(bytes)@.len(),
    ensures
        final(bytes)@.len() == old(bytes)@.len(),
        final(bytes)@.subrange(pos as int, pos + 4) == u32_bytes(x, endianness),
        forall|j: int|
            0 <= j < old(bytes)@.len() && !(pos <= j < pos + 4) ==> final(bytes)@[j] == old(
                bytes,
            )@[j],
{
    let n = bytes.len();  // pins the buffer length as a usize, bounding the positions below
    if endianness == BIG_ENDIAN {
        bytes[pos] = ((x >> 24) & 0xff) as u8;
        bytes[pos + 1] = ((x >> 16) & 0xff) as u8;
        bytes[pos + 2] = ((x >> 8) & 0xff) as u8;
        bytes[pos + 3] = (x & 0xff) as u8;
    } else {
        bytes[pos] = (x & 0xff) as u8;
        bytes[pos + 1] = ((x >> 8) & 0xff) as u8;
        bytes[pos + 2] = ((x >> 16) & 0xff) as u8;
        bytes[pos + 3] = ((x >> 24) & 0xff) as u8;
    }
    proof {
        assert(bytes@.subrange(pos as int, pos + 4) =~= u32_bytes(x, endianness));
    }
}

/// Reads the 32-bit value whose four bytes sit in `bytes` at `pos`, in
/// the order that `endianness` selects.
fn read_u32_at(bytes: &Vec<u8>, pos: usize, endianness: u8) -> (x: u32)
    requires
        pos + 4 <= bytes@.len(),
    ensures
        x == u32_from_bytes(bytes@.subrange(pos as int, pos + 4), endianness),
{
    let n = bytes.len();  // pins the buffer length as a usize, bounding the positions below
    if endianness == BIG_ENDIAN {
        (bytes[pos + 3] as u32) | ((bytes[pos + 2] as u32) << 8) | ((bytes[pos + 1] as u32) << 16)
            | ((bytes[pos] as u32) << 24)
    } else {
        (bytes[pos] as u32) | ((bytes[pos + 1] as u32) << 8) | ((bytes[pos + 2] as u32) << 16) | ((
        bytes[pos + 3] as u32) << 24)
    }
}

/// The packed element bytes of a float32 array given by bit patterns:
/// four bytes per element, each element in the order that endianness `e`
/// selects.
pub open spec fn f32_bits_payload(v: Seq<u32>, e: u8) -> Seq<u8> {
    Seq::new(4 * v.len(), |i: int| u32_bytes(v[i / 4], e)[i % 4])
}

/// The framed byte buffer for a float32 array given by bit patterns: an
/// 8-byte header holding the payload byte length, then the packed
/// element bytes.
pub open spec fn framed_f32_bits(v: Seq<u32>, e: u8) -> Seq<u8>
    recommends
        4 * v.len() <= u64::MAX,
{
    u64_bytes((4 * v.len()) as u64, e) + f32_bits_payload(v, e)
}

/// Encodes a float32 array as framed base64 text. Elements are taken as
/// their IEEE 754 bit patterns, which pins the byte layout bit for bit
/// without any floating-point arithmetic.
pub fn encode_f32_bits(v: &Vec<u32>, endianness: u8) -> (s: String)
    requires
        4 * v@.len() + 8 <= usize::MAX,
    ensures
        s@ == b64_encode(framed_f32_bits(v@, endianness)),
{
    let vlen = v.len();
    let blen: usize = 4 * vlen;
    let mut bytes = encode_u64_len(endianness, blen as u64);
    for i in 0..vlen
        invariant
            vlen == v@.len(),
            4 * vlen + 8 <= usize::MAX,
            bytes@.len() == 4 * vlen + 8,
            bytes@.subrange(0, 8) == u64_bytes((4 * v@.len()) as u64, endianness),
            forall|j: int| 0 <= j < 4 * i ==> bytes@[8 + j] == f32_bits_payload(v@, endianness)[j],
    {
        let ghost prev = bytes@;
        let x = v[i];
        write_u32_at(&mut bytes, 4 * i + 8, x, endianness);
        proof {
            assert(bytes@.subrange(0, 8) =~= prev.subrange(0, 8));
            assert forall|j: int| 0 <= j < 4 * (i + 1) implies bytes@[8 + j] == f32_bits_payload(
                v@,
                endianness,
            )[j] by {
                if j < 4 * i {
                    assert(bytes@[8 + j] == prev[8 + j]);
                } else {
                    let t = j - 4 * i;
                    assert(j / 4 == i && j % 4 == t);
                    assert(bytes@[4 * i + 8 + t] == bytes@.subrange(
                        4 * i + 8,
                        4 * i + 12,
                    )[t]);
                }
            }
        }
    }
    proof {
        assert(bytes@ =~= framed_f32_bits(v@, endianness));
    }
    encode_u8_raw(&bytes)
}

/// What decoding framed float32 text yields, element values given as
/// IEEE 754 bit patterns: the header fixes the element count, and the
/// buffer must hold that many elements after the header; trailing bytes
/// beyond them are ignored.
pub open spec fn spec_decode_f32_bits(text: Seq<char>, e: u8) -> Result<Seq<u32>, CodecError> {
    let bytes = b64_decode(text);
    if bytes.len() < 8 {
        Err(CodecError::MalformedLength)
    } else {
        let count = u64_from_bytes(bytes.subrange(0, 8), e) / 4;
        if 8 + 4 * count <= bytes.len() {
            Ok(
                Seq::new(
                    count as nat,
                    |i: int| u32_from_bytes(bytes.subrange(8 + 4 * i, 12 + 4 * i), e),
                ),
            )
        } else {
            Err(CodecError::MalformedLength)
        }
    }
}

/// Decodes a float32 array, as IEEE 754 bit patterns, from framed
/// base64 text.
pub fn decode_f32_bits(string: &str, endianness: u8) -> (r: Result<Vec<u32>, CodecError>)
    ensures
        (match r {
            Ok(v) => spec_decode_f32_bits(string@, endianness) == Ok::<Seq<u32>, CodecError>(v@),
            Err(e) => spec_decode_f32_bits(string@, endianness) == Err::<Seq<u32>, CodecError>(e),
        }),
{
    let bytes = decode_u8_raw(string);
    let nbytes = bytes.len();
    if nbytes < 8 {
        return Err(CodecError::MalformedLength);
    }
    let blen = decode_u64_len(&bytes, endianness);
    let count64: u64 = blen / 4;
    let avail: u64 = ((nbytes - 8) / 4) as u64;
    if count64 > avail {
        return Err(CodecError::MalformedLength);
    }
    let count: usize = count64 as usize;
    let mut v: Vec<u32> = Vec::new();
    for i in 0..count
        invariant
            nbytes == bytes@.len(),
            bytes@ == b64_decode(string@),
            8 + 4 * count <= nbytes,
            count == u64_from_bytes(bytes@.subrange(0, 8), endianness) / 4,
            v@.len() == i,
            forall|k: int|
                0 <= k < i ==> v@[k] == u32_from_bytes(
                    bytes@.subrange(8 + 4 * k, 12 + 4 * k),
                    endianness,
                ),
    {
        let x = read_u32_at(&bytes, 4 * i + 8, endianness);
        v.push(x);
    }
    proof {
        let count_s = u64_from_bytes(b64_decode(string@).subrange(0, 8), endianness) / 4;
        assert(v@ =~= Seq::new(
            count_s as nat,
            |i: int|
                u32_from_bytes(b64_decode(string@).subrange(8 + 4 * i, 12 + 4 * i), endianness),
        ));
    }
    Ok(v)
}

/// The eight bytes of signed element `x` in the order that endianness
/// `e` selects: the two's-complement bit pattern, reinterpreted unsigned.
pub open spec fn i64_bytes(x: i64, e: u8) -> Seq<u8> {
    u64_bytes(x as u64, e)
}

/// The signed 64-bit element read back from eight bytes.
pub open spec fn i64_from_bytes(s: Seq<u8>, e: u8) -> i64
    recommends
        s.len() == 8,
{
    u64_from_bytes(s, e) as i64
}

/// Reading eight bytes back gives the signed element they were written
/// from, for either endianness.
pub proof fn lemma_i64_bytes_round_trip(x: i64, e: u8)
    ensures
        i64_bytes(x, e).len() == 8,
        i64_from_bytes(i64_bytes(x, e), e) == x,
{
    lemma_u64_bytes_round_trip(x as u64, e);
    assert(((x as u64) as i64) == x) by (bit_vector);
}

/// The packed element bytes of an i64 array: eight bytes per element,
/// each element in the order that endianness `e` selects.
pub open spec fn i64_payload(v: Seq<i64>, e: u8) -> Seq<u8> {
    Seq::new(8 * v.len(), |i: int| i64_bytes(v[i / 8], e)[i % 8])
}

/// The framed byte buffer for an i64 array: an 8-byte header holding the
/// payload byte length, then the packed element bytes.
pub open spec fn framed_i64(v: Seq<i64>, e: u8) -> Seq<u8>
    recommends
        8 * v.len() <= u64::MAX,
{
    u64_bytes((8 * v.len()) as u64, e) + i64_payload(v, e)
}

/// Encodes an i64 array as framed base64 text: the 8-byte length header
/// and the packed element bytes, all passed through the alphabet engine.
pub fn encode_i64(v: &Vec<i64>, endianness: u8) -> (s: String)
    requires
        8 * v@.len() + 8 <= usize::MAX,
    ensures
        s@ == b64_encode(framed_i64(v@, endianness)),
{
    let vlen = v.len();
    let blen: usize = 8 * vlen;
    let mut bytes = encode_u64_len(endianness, blen as u64);
    for i in 0..vlen
        invariant
            vlen == v@.len(),
            8 * vlen + 8 <= usize::MAX,
            bytes@.len() == 8 * vlen + 8,
            bytes@.subrange(0, 8) == u64_bytes((8 * v@.len()) as u64, endianness),
            forall|j: int| 0 <= j < 8 * i ==> bytes@[8 + j] == i64_payload(v@, endianness)[j],
    {
        let ghost prev = bytes@;
        let x = v[i];
        write_u64_at(&mut bytes, 8 * i + 8, x as u64, endianness);
        proof {
            assert(bytes@.subrange(0, 8) =~= prev.subrange(0, 8));
            assert forall|j: int| 0 <= j < 8 * (i + 1) implies bytes@[8 + j] == i64_payload(
                v@,
                endianness,
            )[j] by {
                if j < 8 * i {
                    assert(bytes@[8 + j] == prev[8 + j]);
                } else {
                    let t = j - 8 * i;
                    assert(j / 8 == i && j % 8 == t);
                    assert(bytes@[8 * i + 8 + t] == bytes@.subrange(
                        8 * i + 8,
                        8 * i + 16,
                    )[t]);
                }
            }
        }
    }
    proof {
        assert(bytes@ =~= framed_i64(v@, endianness));
    }
    encode_u8_raw(&bytes)
}

/// What decoding framed i64 text yields: the byte length read from the
/// header fixes the element count, and the buffer must hold that many
/// elements after the header; trailing bytes beyond them are ignored.
pub open spec fn spec_decode_i64(text: Seq<char>, e: u8) -> Result<Seq<i64>, CodecError> {
    let bytes = b64_decode(text);
    if bytes.len() < 8 {
        Err(CodecError::MalformedLength)
    } else {
        let count = u64_from_bytes(bytes.subrange(0, 8), e) / 8;
        if 8 + 8 * count <= bytes.len() {
            Ok(
                Seq::new(
                    count as nat,
                    |i: int| i64_from_bytes(bytes.subrange(8 + 8 * i, 16 + 8 * i), e),
                ),
            )
        } else {
            Err(CodecError::MalformedLength)
        }
    }
}

/// Decodes an i64 array from framed base64 text, validating that the
/// buffer is long enough for its header and for the element count the
/// header declares.
pub fn decode_i64(string: &str, endianness: u8) -> (r: Result<Vec<i64>, CodecError>)
    ensures
        (match r {
            Ok(v) => spec_decode_i64(string@, endianness) == Ok::<Seq<i64>, CodecError>(v@),
            Err(e) => spec_decode_i64(string@, endianness) == Err::<Seq<i64>, CodecError>(e),
        }),
{
    let bytes = decode_u8_raw(string);
    let nbytes = bytes.len();
    if nbytes < 8 {
        return Err(CodecError::MalformedLength);
    }
    let blen = decode_u64_len(&bytes, endianness);
    let count64: u64 = blen / 8;
    let avail: u64 = ((nbytes - 8) / 8) as u64;
    if count64 > avail {
        return Err(CodecError::MalformedLength);
    }
    let count: usize = count64 as usize;
    let mut v: Vec<i64> = Vec::new();
    for i in 0..count
        invariant
            nbytes == bytes@.len(),
            bytes@ == b64_decode(string@),
            8 + 8 * count <= nbytes,
            count == u64_from_bytes(bytes@.subrange(0, 8), endianness) / 8,
            v@.len() == i,
            forall|k: int|
                0 <= k < i ==> v@[k] == i64_from_bytes(
                    bytes@.subrange(8 + 8 * k, 16 + 8 * k),
                    endianness,
                ),
    {
        let x = read_u64_at(&bytes, 8 * i + 8, endianness);
        v.push(x as i64);
    }
    proof {
        let count_s = u64_from_bytes(b64_decode(string@).subrange(0, 8), endianness) / 8;
        assert(v@ =~= Seq::new(
            count_s as nat,
            |i: int|
                i64_from_bytes(b64_decode(string@).subrange(8 + 8 * i, 16 + 8 * i), endianness),
        ));
    }
    Ok(v)
}

/// The framed byte buffer for a byte array: the 8-byte length header,
/// then the bytes themselves. Single-byte elements need no byte-order
/// handling, but the header still follows endianness `e`.
pub open spec fn framed_u8(v: Seq<u8>, e: u8) -> Seq<u8>
    recommends
        v.len() <= u64::MAX,
{
    u64_bytes(v.len() as u64, e) + v
}

/// Encodes a byte array as framed base64 text: the full 8-byte header
/// is paid even for single-byte elements, keeping the framing uniform
/// across element types.
pub fn encode_u8(v: &Vec<u8>, endianness: u8) -> (s: String)
    requires
        v@.len() + 8 <= usize::MAX,
    ensures
        s@ == b64_encode(framed_u8(v@, endianness)),
{
    let vlen = v.len();
    let mut bytes = encode_u64_len(endianness, vlen as u64);
    for i in 0..vlen
        invariant
            vlen == v@.len(),
            vlen + 8 <= usize::MAX,
            bytes@.len() == vlen + 8,
            bytes@.subrange(0, 8) == u64_bytes(v@.len() as u64, endianness),
            forall|j: int| 0 <= j < i ==> bytes@[8 + j] == v@[j],
    {
        let ghost prev = bytes@;
        bytes[i + 8] = v[i];
        proof {
            assert(bytes@.subrange(0, 8) =~= prev.subrange(0, 8));
        }
    }
    proof {
        assert(bytes@ =~= framed_u8(v@, endianness));
    }
    encode_u8_raw(&bytes)
}

/// What decoding framed byte-array text yields: the header fixes the
/// byte count, and the buffer must hold that many bytes after the
/// header; trailing bytes beyond them are ignored.
pub open spec fn spec_decode_u8(text: Seq<char>, e: u8) -> Result<Seq<u8>, CodecError> {
    let bytes = b64_decode(text);
    if bytes.len() < 8 {
        Err(CodecError::MalformedLength)
    } else {
        let count = u64_from_bytes(bytes.subrange(0, 8), e);
        if 8 + count <= bytes.len() {
            Ok(bytes.subrange(8, 8 + count))
        } else {
            Err(CodecError::MalformedLength)
        }
    }
}

/// Decodes a byte array from framed base64 text. The endianness still
/// matters for the length header in the first eight bytes.
pub fn decode_u8(string: &str, endianness: u8) -> (r: Result<Vec<u8>, CodecError>)
    ensures
        (match r {
            Ok(v) => spec_decode_u8(string@, endianness) == Ok::<Seq<u8>, CodecError>(v@),
            Err(e) => spec_decode_u8(string@, endianness) == Err::<Seq<u8>, CodecError>(e),
        }),
{
    let bytes = decode_u8_raw(string);
    let nbytes = bytes.len();
    if nbytes < 8 {
        return Err(CodecError::MalformedLength);
    }
    let blen = decode_u64_len(&bytes, endianness);
    let avail: u64 = (nbytes - 8) as u64;
    if blen > avail {
        return Err(CodecError::MalformedLength);
    }
    let count: usize = blen as usize;
    let mut v: Vec<u8> = Vec::new();
    for i in 0..count
        invariant
            nbytes == bytes@.len(),
            bytes@ == b64_decode(string@),
            8 + count <= nbytes,
            count == u64_from_bytes(bytes@.subrange(0, 8), endianness),
            v@.len() == i,
            forall|k: int| 0 <= k < i ==> v@[k] == bytes@[8 + k],
    {
        v.push(bytes[i + 8]);
    }
    proof {
        let count_s = u64_from_bytes(b64_decode(string@).subrange(0, 8), endianness);
        assert(v@ =~= b64_decode(string@).subrange(8, 8 + count_s));
    }
    Ok(v)
}

/// A sequence whose prefix of `t.len()` elements is `t` agrees with `t`
/// on every window inside that prefix.
proof fn lemma_take_subrange<A>(s: Seq<A>, t: Seq<A>, a: int, b: int)
    requires
        t.len() <= s.len(),
        s.take(t.len() as int) == t,
        0 <= a <= b <= t.len(),
    ensures
        s.subrange(a, b) == t.subrange(a, b),
{
    assert forall|j: int| 0 <= j < b - a implies s.subrange(a, b)[j] == t.subrange(a, b)[j] by {
        assert(s.take(t.len() as int)[a + j] == s[a + j]);
    }
    assert(s.subrange(a, b) =~= t.subrange(a, b));
}

/// Round-trip law for i64 arrays: decoding the encoding of any array,
/// under either endianness setting, gives back exactly the array,
/// value for value.
pub proof fn lemma_round_trip_i64(v: Seq<i64>, e: u8)
    requires
        8 * v.len() + 8 <= usize::MAX,
    ensures
        spec_decode_i64(b64_encode(framed_i64(v, e)), e) == Ok::<Seq<i64>, CodecError>(v),
{
    let n = v.len() as int;
    let blen = (8 * v.len()) as u64;
    let fb = framed_i64(v, e);
    lemma_u64_bytes_round_trip(blen, e);
    assert(fb.len() == 8 + 8 * n);
    lemma_raw_round_trip(fb);
    let dec = b64_decode(b64_encode(fb));
    lemma_take_subrange(dec, fb, 0, 8);
    assert(fb.subrange(0, 8) =~= u64_bytes(blen, e));
    assert(u64_from_bytes(dec.subrange(0, 8), e) == blen);
    let count = blen / 8;
    assert(count == n);
    assert forall|i: int| 0 <= i < n implies i64_from_bytes(
        dec.subrange(8 + 8 * i, 16 + 8 * i),
        e,
    ) == v[i] by {
        lemma_take_subrange(dec, fb, 8 + 8 * i, 16 + 8 * i);
        assert forall|t: int| 0 <= t < 8 implies fb.subrange(8 + 8 * i, 16 + 8 * i)[t]
            == i64_bytes(v[i], e)[t] by {
            assert(fb[8 + 8 * i + t] == i64_payload(v, e)[8 * i + t]);
            assert((8 * i + t) / 8 == i && (8 * i + t) % 8 == t);
        }
        assert(fb.subrange(8 + 8 * i, 16 + 8 * i) =~= i64_bytes(v[i], e));
        lemma_i64_bytes_round_trip(v[i], e);
    }
    assert(Seq::new(count as nat, |i: int| i64_from_bytes(dec.subrange(8 + 8 * i, 16 + 8 * i), e))
        =~= v);
}

/// Round-trip law for byte arrays: decoding the encoding of any array,
/// under either endianness setting, gives back exactly the array.
pub proof fn lemma_round_trip_u8(v: Seq<u8>, e: u8)
    requires
        v.len() + 8 <= usize::MAX,
    ensures
        spec_decode_u8(b64_encode(framed_u8(v, e)), e) == Ok::<Seq<u8>, CodecError>(v),
{
    let n = v.len() as int;
    let blen = v.len() as u64;
    let fb = framed_u8(v, e);
    lemma_u64_bytes_round_trip(blen, e);
    assert(fb.len() == 8 + n);
    lemma_raw_round_trip(fb);
    let dec = b64_decode(b64_encode(fb));
    lemma_take_subrange(dec, fb, 0, 8);
    assert(fb.subrange(0, 8) =~= u64_bytes(blen, e));
    assert(u64_from_bytes(dec.subrange(0, 8), e) == blen);
    lemma_take_subrange(dec, fb, 8, 8 + blen as int);
    assert(fb.subrange(8, 8 + blen as int) =~= v);
}

/// Round-trip law for float32 arrays given as IEEE 754 bit patterns:
/// decoding the encoding of any array, under either endianness setting,
/// gives back exactly the array, bit for bit.
pub proof fn lemma_round_trip_f32_bits(v: Seq<u32>, e: u8)
    requires
        4 * v.len() + 8 <= usize::MAX,
    ensures
        spec_decode_f32_bits(b64_encode(framed_f32_bits(v, e)), e) == Ok::<Seq<u32>, CodecError>(v),
{
    let n = v.len() as int;
    let blen = (4 * v.len()) as u64;
    let fb = framed_f32_bits(v, e);
    lemma_u64_bytes_round_trip(blen, e);
    assert(fb.len() == 8 + 4 * n);
    lemma_raw_round_trip(fb);
    let dec = b64_decode(b64_encode(fb));
    lemma_take_subrange(dec, fb, 0, 8);
    assert(fb.subrange(0, 8) =~= u64_bytes(blen, e));
    assert(u64_from_bytes(dec.subrange(0, 8), e) == blen);
    let count = blen / 4;
    assert(count == n);
    assert forall|i: int| 0 <= i < n implies u32_from_bytes(
        dec.subrange(8 + 4 * i, 12 + 4 * i),
        e,
    ) == v[i] by {
        lemma_take_subrange(dec, fb, 8 + 4 * i, 12 + 4 * i);
        assert forall|t: int| 0 <= t < 4 implies fb.subrange(8 + 4 * i, 12 + 4 * i)[t]
            == u32_bytes(v[i], e)[t] by {
            assert(fb[8 + 4 * i + t] == f32_bits_payload(v, e)[4 * i + t]);
            assert((4 * i + t) / 4 == i && (4 * i + t) % 4 == t);
        }
        assert(fb.subrange(8 + 4 * i, 12 + 4 * i) =~= u32_bytes(v[i], e));
        lemma_u32_bytes_round_trip(v[i], e);
    }
    assert(Seq::new(count as nat, |i: int| u32_from_bytes(dec.subrange(8 + 4 * i, 12 + 4 * i), e))
        =~= v);
}

/// Boundary law: an empty array of any element type encodes to text of
/// exactly twelve characters, the encoded 8-byte zero-length header
/// alone, and that text decodes back to the empty array.
pub proof fn lemma_empty_array_text(e: u8)
    ensures
        b64_encode(framed_u8(Seq::empty(), e)).len() == 12,
        b64_encode(framed_i64(Seq::empty(), e)).len() == 12,
        b64_encode(framed_f32_bits(Seq::empty(), e)).len() == 12,
        framed_u8(Seq::empty(), e) == u64_bytes(0, e),
        framed_i64(Seq::empty(), e) == u64_bytes(0, e),
        framed_f32_bits(Seq::empty(), e) == u64_bytes(0, e),
        spec_decode_u8(b64_encode(framed_u8(Seq::empty(), e)), e) == Ok::<
            Seq<u8>,
            CodecError,
        >(Seq::empty()),
        spec_decode_i64(b64_encode(framed_i64(Seq::empty(), e)), e) == Ok::<
            Seq<i64>,
            CodecError,
        >(Seq::empty()),
        spec_decode_f32_bits(b64_encode(framed_f32_bits(Seq::empty(), e)), e) == Ok::<
            Seq<u32>,
            CodecError,
        >(Seq::empty()),
{
    lemma_u64_bytes_round_trip(0, e);
    assert(framed_u8(Seq::empty(), e) =~= u64_bytes(0, e));
    assert(framed_i64(Seq::empty(), e) =~= u64_bytes(0, e));
    assert(framed_f32_bits(Seq::empty(), e) =~= u64_bytes(0, e));
    lemma_round_trip_u8(Seq::empty(), e);
    lemma_round_trip_i64(Seq::empty(), e);
    lemma_round_trip_f32_bits(Seq::empty(), e);
}

} // verus!
