//! A hashing and encoding toolkit: FNV-1a, CRC-32, hex and base64, and an
//! incremental FNV-1a hasher resource.
use vstd::prelude::*;
use crate::text::{string_from_chars, ascii_uppercase};
use vstd::string::StringSliceAdditionalSpecFns;
use crate::wit_common::Stream;

verus! {

/// The result of a hash computation.
#[derive(Debug)]
pub struct HashOutput {
    /// Hex-encoded hash digest.
    pub hex: String,
    /// Raw digest bytes.
    pub bytes: Vec<u8>,
}

/// Supported hash algorithms.
#[derive(Debug, Clone, Copy, PartialEq, Eq, Structural)]
pub enum Algorithm {
    Sha256,
    Sha512,
    Blake3,
}

/// Supported encoding formats.
#[derive(Debug, Clone, Copy, PartialEq, Eq, Structural)]
pub enum Encoding {
    Hex,
    Base64,
    Base64Url,
}

/// Configuration for a hashing operation.
pub struct HashConfig {
    /// Algorithm to use.
    pub algorithm: Algorithm,
    /// Optional HMAC key; if `None`, a plain hash is computed.
    pub hmac_key: Option<Vec<u8>>,
}

/// Errors returned by hashing / encoding operations.
#[derive(Debug, Clone, Copy, PartialEq, Eq, Structural)]
pub enum HashError {
    /// The input was empty.
    EmptyInput,
    /// The chosen algorithm is not available.
    UnsupportedAlgorithm,
    /// The provided data is malformed (e.g. invalid hex).
    InvalidData,
}

/// The FNV-1a 64-bit offset basis.
pub const FNV_BASIS: u64 = 0xcbf2_9ce4_8422_2325;

/// The FNV-1a 64-bit prime.
pub const FNV_PRIME: u64 = 0x0000_0100_0000_01b3;

/// One FNV-1a step: xor in the byte, then multiply by the prime modulo 2^64.
pub open spec fn fnv1a_step(h: u64, b: u8) -> u64 {
    vstd::wrapping::u64_specs::wrapping_mul(h ^ (b as u64), FNV_PRIME)
}

/// FNV-1a of `s`, started from the state `h`.
pub open spec fn fnv1a_from(h: u64, s: Seq<u8>) -> u64
    decreases s.len(),
{
    if s.len() == 0 {
        h
    } else {
        fnv1a_step(fnv1a_from(h, s.drop_last()), s.last())
    }
}

/// The FNV-1a 64-bit hash of `s`.
pub open spec fn fnv1a_spec(s: Seq<u8>) -> u64 {
    fnv1a_from(FNV_BASIS, s)
}

/// The eight big-endian bytes of `x`.
pub open spec fn be_bytes(x: u64) -> Seq<u8> {
    seq![
        (x >> 56) as u8, (x >> 48) as u8, (x >> 40) as u8, (x >> 32) as u8,
        (x >> 24) as u8, (x >> 16) as u8, (x >> 8) as u8, x as u8,
    ]
}

/// Law: hashing `a + b` from `h` is hashing `b` from the state after `a`.
pub proof fn lemma_fnv1a_concat(h: u64, a: Seq<u8>, b: Seq<u8>)
    ensures
        fnv1a_from(h, a + b) == fnv1a_from(fnv1a_from(h, a), b),
    decreases b.len(),
{
    if b.len() == 0 {
        assert(a + b == a);
    } else {
        lemma_fnv1a_concat(h, a, b.drop_last());
        assert((a + b).drop_last() == a + b.drop_last());
        assert((a + b).last() == b.last());
    }
}

fn fnv1a_update(h: u64, data: &[u8]) -> (r: u64)
    ensures
        r == fnv1a_from(h, data@),
{
    let mut hash = h;
    let mut i: usize = 0;
    while i < data.len()
        invariant
            i <= data.len(),
            hash == fnv1a_from(h, data@.take(i as int)),
        decreases data.len() - i,
    {
        proof {
            assert(data@.take(i + 1).drop_last() == data@.take(i as int));
        }
        hash = (hash ^ (data[i] as u64)).wrapping_mul(FNV_PRIME);
        i = i + 1;
    }
    assert(data@.take(data.len() as int) == data@);
    hash
}

fn u64_be_bytes(x: u64) -> (v: Vec<u8>)
    ensures
        v@ == be_bytes(x),
{
    let mut v: Vec<u8> = Vec::new();
    v.push((x >> 56) as u8);
    v.push((x >> 48) as u8);
    v.push((x >> 40) as u8);
    v.push((x >> 32) as u8);
    v.push((x >> 24) as u8);
    v.push((x >> 16) as u8);
    v.push((x >> 8) as u8);
    v.push(x as u8);
    v
}

/// Compute a simple FNV-1a 64-bit hash of the input bytes.
pub fn fnv1a(data: Vec<u8>) -> (h: u64)
    ensures
        h == fnv1a_spec(data@),
{
    fnv1a_update(FNV_BASIS, data.as_slice())
}

/// The FNV-1a digest of `data` as eight big-endian bytes.
pub fn fnv1a_bytes(data: &[u8]) -> (v: Vec<u8>)
    ensures
        v@ == be_bytes(fnv1a_spec(data@)),
{
    let h = fnv1a_update(FNV_BASIS, data);
    u64_be_bytes(h)
}

/// Hook for keyed hashing; the digest is left as it is.
pub fn apply_hmac(digest: &[u8], config: &HashConfig) {
}

} // verus!

verus! {

/// The lower-case hex digit for `n < 16`.
pub open spec fn hex_digit(n: u8) -> char {
    if n < 10 {
        (48 + n) as char
    } else {
        (87 + n) as char
    }
}

/// Lower-case hex of `s`, two digits per byte, high nibble first.
pub open spec fn hex_spec(s: Seq<u8>) -> Seq<char>
    decreases s.len(),
{
    if s.len() == 0 {
        Seq::empty()
    } else {
        hex_spec(s.drop_last()) + seq![hex_digit(s.last() >> 4), hex_digit(s.last() & 0x0f)]
    }
}

fn hex_digit_char(n: u8) -> (c: char)
    requires
        n < 16,
    ensures
        c == hex_digit(n),
{
    if n < 10 {
        (48 + n) as char
    } else {
        (87 + n) as char
    }
}

/// Lower-case hex encoding of `data`.
pub fn hex_encode(data: &[u8]) -> (s: String)
    ensures
        s@ == hex_spec(data@),
{
    let mut out: Vec<char> = Vec::new();
    let mut i: usize = 0;
    while i < data.len()
        invariant
            i <= data.len(),
            out@ == hex_spec(data@.take(i as int)),
        decreases data.len() - i,
    {
        let b = data[i];
        proof {
            assert(data@.take(i + 1).drop_last() == data@.take(i as int));
            assert(b >> 4 < 16) by (bit_vector);
            assert(b & 0x0f < 16) by (bit_vector);
        }
        out.push(hex_digit_char(b >> 4));
        out.push(hex_digit_char(b & 0x0f));
        i = i + 1;
    }
    assert(data@.take(data.len() as int) == data@);
    string_from_chars(out.as_slice())
}

/// The value of an ASCII hex digit (either case).
pub open spec fn hex_value(b: u8) -> Option<u8> {
    if 48 <= b <= 57 {
        Some((b - 48) as u8)
    } else if 97 <= b <= 102 {
        Some((b - 87) as u8)
    } else if 65 <= b <= 70 {
        Some((b - 55) as u8)
    } else {
        None
    }
}

/// The value of a hex digit byte, if it is one.
pub fn hex_val(b: u8) -> (r: Option<u8>)
    ensures
        r == hex_value(b),
{
    if 48 <= b && b <= 57 {
        Some(b - 48)
    } else if 97 <= b && b <= 102 {
        Some(b - 87)
    } else if 65 <= b && b <= 70 {
        Some(b - 55)
    } else {
        None
    }
}

/// Every byte of `b` is a hex digit.
pub open spec fn all_hex(b: Seq<u8>) -> bool {
    forall|i: int| 0 <= i < b.len() ==> (#[trigger] hex_value(b[i])) is Some
}

/// The byte encoded by the hex digits `b[2k]` and `b[2k + 1]`.
pub open spec fn hex_pair(b: Seq<u8>, k: int) -> u8 {
    (hex_value(b[2 * k])->0 * 16 + hex_value(b[2 * k + 1])->0) as u8
}

/// Hex decoding of the bytes `b`: an error unless the length is even and every
/// byte is a hex digit.
pub open spec fn hex_decode_spec(b: Seq<u8>) -> Result<Seq<u8>, HashError> {
    if b.len() % 2 != 0 || !all_hex(b) {
        Err(HashError::InvalidData)
    } else {
        Ok(Seq::new(b.len() / 2, |k: int| hex_pair(b, k)))
    }
}

/// Decode a hex string (either case) into bytes.
pub fn hex_decode(s: &str) -> (r: Result<Vec<u8>, HashError>)
    ensures
        match r {
            Ok(v) => hex_decode_spec(s.spec_bytes()) == Ok::<Seq<u8>, HashError>(v@),
            Err(e) => hex_decode_spec(s.spec_bytes()) == Err::<Seq<u8>, HashError>(e),
        },
{
    let bytes = s.as_bytes();
    if bytes.len() % 2 != 0 {
        return Err(HashError::InvalidData);
    }
    let mut out: Vec<u8> = Vec::new();
    let mut i: usize = 0;
    while i < bytes.len()
        invariant
            bytes@ == s.spec_bytes(),
            bytes.len() % 2 == 0,
            i <= bytes.len(),
            i % 2 == 0,
            out@.len() == i / 2,
            forall|j: int| 0 <= j < i ==> (#[trigger] hex_value(bytes@[j])) is Some,
            forall|k: int| 0 <= k < i / 2 ==> out@[k] == #[trigger] hex_pair(bytes@, k),
        decreases bytes.len() - i,
    {
        let hi = match hex_val(bytes[i]) {
            Some(h) => h,
            None => {
                assert(hex_value(bytes@[i as int]) is None);
                return Err(HashError::InvalidData);
            },
        };
        let lo = match hex_val(bytes[i + 1]) {
            Some(l) => l,
            None => {
                assert(hex_value(bytes@[i + 1]) is None);
                return Err(HashError::InvalidData);
            },
        };
        proof {
            assert(hi < 16 && lo < 16);
            assert((hi << 4) | lo == hi * 16 + lo) by (bit_vector)
                requires
                    hi < 16,
                    lo < 16,
            ;
            assert(2 * (i / 2) == i);
        }
        out.push((hi << 4) | lo);
        i = i + 2;
    }
    proof {
        assert(out@ == Seq::new(bytes@.len() / 2, |k: int| hex_pair(bytes@, k)));
    }
    Ok(out)
}

} // verus!

verus! {

/// The bytes of an ASCII character sequence.
pub open spec fn ascii_bytes(cs: Seq<char>) -> Seq<u8> {
    Seq::new(cs.len(), |i: int| cs[i] as u8)
}

proof fn lemma_hex_spec_index(d: Seq<u8>)
    ensures
        hex_spec(d).len() == 2 * d.len(),
        forall|k: int| 0 <= k < d.len() ==> hex_spec(d)[2 * k] == hex_digit(#[trigger] d[k] >> 4)
            && hex_spec(d)[2 * k + 1] == hex_digit(d[k] & 0x0f),
    decreases d.len(),
{
    if d.len() > 0 {
        lemma_hex_spec_index(d.drop_last());
        assert forall|k: int| 0 <= k < d.len() implies hex_spec(d)[2 * k] == hex_digit(#[trigger] d[k] >> 4)
            && hex_spec(d)[2 * k + 1] == hex_digit(d[k] & 0x0f) by {
            if k < d.len() - 1 {
                assert(d[k] == d.drop_last()[k]);
            }
        }
    }
}

proof fn lemma_hex_digit_value(n: u8)
    requires
        n < 16,
    ensures
        hex_value(hex_digit(n) as u8) == Some(n),
        (hex_digit(n) as u32) < 128,
{
}

/// Law: decoding the hex encoding of `d` gives back `d`.
pub proof fn lemma_hex_roundtrip(d: Seq<u8>)
    ensures
        hex_decode_spec(ascii_bytes(hex_spec(d))) == Ok::<Seq<u8>, HashError>(d),
{
    lemma_hex_spec_index(d);
    let h = hex_spec(d);
    let b = ascii_bytes(h);
    assert forall|i: int| 0 <= i < b.len() implies (#[trigger] hex_value(b[i])) is Some by {
        let k = i / 2;
        assert(0 <= k < d.len());
        let x = d[k];
        assert(x >> 4 < 16 && x & 0x0f < 16) by (bit_vector);
        lemma_hex_digit_value(x >> 4);
        lemma_hex_digit_value(x & 0x0f);
        if i % 2 == 0 {
            assert(i == 2 * k);
        } else {
            assert(i == 2 * k + 1);
        }
    }
    assert forall|k: int| 0 <= k < d.len() implies #[trigger] hex_pair(b, k) == d[k] by {
        let x = d[k];
        assert(x >> 4 < 16 && x & 0x0f < 16) by (bit_vector);
        lemma_hex_digit_value(x >> 4);
        lemma_hex_digit_value(x & 0x0f);
        assert(b[2 * k] == hex_digit(x >> 4) as u8);
        assert(b[2 * k + 1] == hex_digit(x & 0x0f) as u8);
        assert(((x >> 4) * 16 + (x & 0x0f)) as u8 == x) by (bit_vector);
    }
    assert(Seq::new(b.len() / 2, |k: int| hex_pair(b, k)) == d);
}

/// Law: the hex encoding is ASCII, so a string holding it has these bytes and
/// decodes back to `d`.
pub proof fn lemma_hex_string_roundtrip(s: &str, d: Seq<u8>)
    requires
        s@ == hex_spec(d),
    ensures
        hex_decode_spec(s.spec_bytes()) == Ok::<Seq<u8>, HashError>(d),
{
    lemma_hex_spec_index(d);
    assert forall|i: int| 0 <= i < s@.len() implies '\0' <= #[trigger] s@[i] <= '\u{7f}' by {
        let k = i / 2;
        let x = d[k];
        assert(x >> 4 < 16 && x & 0x0f < 16) by (bit_vector);
        lemma_hex_digit_value(x >> 4);
        lemma_hex_digit_value(x & 0x0f);
        if i % 2 == 0 {
            assert(i == 2 * k);
        } else {
            assert(i == 2 * k + 1);
        }
    }
    assert(vstd::string::is_ascii(s));
    vstd::string::is_ascii_spec_bytes(s);
    assert(s.spec_bytes() == ascii_bytes(s@));
    lemma_hex_roundtrip(d);
}

} // verus!

verus! {

/// The base64 alphabet character for `n < 64`.
pub open spec fn b64_char(n: u32) -> char {
    if n < 26 {
        (65 + n) as char
    } else if n < 52 {
        (71 + n) as char
    } else if n < 62 {
        (n - 4) as char
    } else if n == 62 {
        '+'
    } else {
        '/'
    }
}

fn b64_char_exec(n: u32) -> (c: char)
    requires
        n < 64,
    ensures
        c == b64_char(n),
{
    if n < 26 {
        (65 + n as u8) as char
    } else if n < 52 {
        (71 + n as u8) as char
    } else if n < 62 {
        (n as u8 - 4) as char
    } else if n == 62 {
        '+'
    } else {
        '/'
    }
}

/// The 24-bit group of a chunk of one to three bytes, missing bytes as zero.
pub open spec fn chunk_triple(c: Seq<u8>) -> u32 {
    let b0 = c[0] as u32;
    let b1 = if c.len() > 1 { c[1] as u32 } else { 0u32 };
    let b2 = if c.len() > 2 { c[2] as u32 } else { 0u32 };
    (b0 << 16) | (b1 << 8) | b2
}

/// The four base64 characters of a chunk of one to three bytes, with `=` padding.
pub open spec fn enc_chunk(c: Seq<u8>) -> Seq<char> {
    let t = chunk_triple(c);
    seq![
        b64_char((t >> 18) & 0x3f),
        b64_char((t >> 12) & 0x3f),
        if c.len() > 1 { b64_char((t >> 6) & 0x3f) } else { '=' },
        if c.len() > 2 { b64_char(t & 0x3f) } else { '=' },
    ]
}

/// Where the last chunk of three starts in a sequence of length `n > 0`.
pub open spec fn last_chunk_start(n: int, size: int) -> int {
    ((n - 1) / size) * size
}

/// Standard base64 (with `=` padding) of `s`, three bytes to four characters.
pub open spec fn b64_spec(s: Seq<u8>) -> Seq<char>
    decreases s.len(),
{
    if s.len() == 0 {
        Seq::empty()
    } else {
        let st = last_chunk_start(s.len() as int, 3);
        if 0 <= st < s.len() {
            b64_spec(s.take(st)) + enc_chunk(s.skip(st))
        } else {
            Seq::empty()
        }
    }
}

proof fn lemma_last_chunk_start(i: int, k: int, size: int)
    requires
        0 <= i,
        i % size == 0,
        1 <= k <= size,
        size > 0,
    ensures
        last_chunk_start(i + k, size) == i,
{
    assert(((i + k - 1) / size) * size == i) by (nonlinear_arith)
        requires
            0 <= i,
            i % size == 0,
            1 <= k <= size,
            size > 0,
    {
        let q = i / size;
        assert(i == q * size);
        assert((i + k - 1) / size == q + (k - 1) / size);
        assert((k - 1) / size == 0);
    }
}

fn base64_chars(data: &[u8]) -> (out: Vec<char>)
    ensures
        out@ == b64_spec(data@),
{
    let mut out: Vec<char> = Vec::new();
    let mut i: usize = 0;
    while i < data.len()
        invariant
            i <= data.len(),
            i % 3 == 0 || i == data.len(),
            out@ == b64_spec(data@.take(i as int)),
        decreases data.len() - i,
    {
        let k: usize = if data.len() - i >= 3 { 3 } else { data.len() - i };
        let ghost chunk = data@.subrange(i as int, i + k);
        let b0 = data[i] as u32;
        let b1: u32 = if k > 1 { data[i + 1] as u32 } else { 0 };
        let b2: u32 = if k > 2 { data[i + 2] as u32 } else { 0 };
        let triple = (b0 << 16) | (b1 << 8) | b2;
        proof {
            assert(triple == chunk_triple(chunk));
            assert((triple >> 18) & 0x3f < 64 && (triple >> 12) & 0x3f < 64) by (bit_vector);
            assert((triple >> 6) & 0x3f < 64 && triple & 0x3f < 64) by (bit_vector);
        }
        out.push(b64_char_exec((triple >> 18) & 0x3f));
        out.push(b64_char_exec((triple >> 12) & 0x3f));
        if k > 1 {
            out.push(b64_char_exec((triple >> 6) & 0x3f));
        } else {
            out.push('=');
        }
        if k > 2 {
            out.push(b64_char_exec(triple & 0x3f));
        } else {
            out.push('=');
        }
        proof {
            lemma_last_chunk_start(i as int, k as int, 3);
            let t = data@.take(i + k);
            assert(t.take(i as int) == data@.take(i as int));
            assert(t.skip(i as int) == chunk);
            assert(out@ == b64_spec(data@.take(i as int)) + enc_chunk(chunk));
        }
        i = i + k;
    }
    assert(data@.take(data.len() as int) == data@);
    out
}

/// Standard base64 encoding with `=` padding.
pub fn base64_encode(data: &[u8]) -> (s: String)
    ensures
        s@ == b64_spec(data@),
{
    let out = base64_chars(data);
    string_from_chars(out.as_slice())
}

/// `s` with `+` turned into `-` and `/` into `_`.
pub open spec fn url_alphabet(s: Seq<char>) -> Seq<char> {
    s.map_values(|c: char| if c == '+' { '-' } else if c == '/' { '_' } else { c })
}

/// `s` without its trailing `=` characters.
pub open spec fn trim_padding(s: Seq<char>) -> Seq<char>
    decreases s.len(),
{
    if s.len() > 0 && s.last() == '=' {
        trim_padding(s.drop_last())
    } else {
        s
    }
}

/// URL-safe base64 without padding.
pub open spec fn b64url_spec(s: Seq<u8>) -> Seq<char> {
    trim_padding(url_alphabet(b64_spec(s)))
}

/// URL-safe base64 encoding (`-` and `_`, no padding).
pub fn base64url_encode(data: &[u8]) -> (s: String)
    ensures
        s@ == b64url_spec(data@),
{
    let enc = base64_chars(data);
    let mut out: Vec<char> = Vec::new();
    let mut i: usize = 0;
    while i < enc.len()
        invariant
            i <= enc.len(),
            out@ == url_alphabet(enc@.take(i as int)),
        decreases enc.len() - i,
    {
        let c = enc[i];
        if c == '+' {
            out.push('-');
        } else if c == '/' {
            out.push('_');
        } else {
            out.push(c);
        }
        proof {
            assert(enc@.take(i + 1) == enc@.take(i as int).push(c));
        }
        i = i + 1;
    }
    assert(enc@.take(enc.len() as int) == enc@);
    while out.len() > 0 && out[out.len() - 1] == '='
        invariant
            trim_padding(out@) == b64url_spec(data@),
        decreases out.len(),
    {
        out.pop();
    }
    string_from_chars(out.as_slice())
}

} // verus!

verus! {

/// The value of a base64 byte; `=` counts as zero.
pub open spec fn b64_value(b: u8) -> Option<u8> {
    if 65 <= b <= 90 {
        Some((b - 65) as u8)
    } else if 97 <= b <= 122 {
        Some((b - 71) as u8)
    } else if 48 <= b <= 57 {
        Some((b + 4) as u8)
    } else if b == 43 {
        Some(62u8)
    } else if b == 47 {
        Some(63u8)
    } else if b == 61 {
        Some(0u8)
    } else {
        None
    }
}

/// The value of a base64 byte, or `InvalidData`.
pub fn base64_val(b: u8) -> (r: Result<u8, HashError>)
    ensures
        r == (match b64_value(b) {
            Some(v) => Ok::<u8, HashError>(v),
            None => Err::<u8, HashError>(HashError::InvalidData),
        }),
{
    if 65 <= b && b <= 90 {
        Ok(b - 65)
    } else if 97 <= b && b <= 122 {
        Ok(b - 71)
    } else if 48 <= b && b <= 57 {
        Ok(b + 4)
    } else if b == 43 {
        Ok(62)
    } else if b == 47 {
        Ok(63)
    } else if b == 61 {
        Ok(0)
    } else {
        Err(HashError::InvalidData)
    }
}

/// The bytes with the URL-safe characters `-` and `_` turned into `+` and `/`.
pub open spec fn standard_alphabet_bytes(b: Seq<u8>) -> Seq<u8> {
    b.map_values(|x: u8| if x == 45 { 43u8 } else if x == 95 { 47u8 } else { x })
}

/// The bytes to decode: standard alphabet, padded with `=` when the length
/// leaves two or three over a multiple of four.
pub open spec fn b64_prepared(b: Seq<u8>) -> Seq<u8> {
    let m = standard_alphabet_bytes(b);
    if m.len() % 4 == 2 {
        m + seq![61u8, 61u8]
    } else if m.len() % 4 == 3 {
        m + seq![61u8]
    } else {
        m
    }
}

/// Every byte is in the base64 alphabet or `=`.
pub open spec fn all_b64(b: Seq<u8>) -> bool {
    forall|i: int| 0 <= i < b.len() ==> (#[trigger] b64_value(b[i])) is Some
}

/// The 24-bit group of a four-byte chunk.
pub open spec fn dec_triple(c: Seq<u8>) -> u32 {
    ((b64_value(c[0])->0 as u32) << 18) | ((b64_value(c[1])->0 as u32) << 12)
        | ((b64_value(c[2])->0 as u32) << 6) | (b64_value(c[3])->0 as u32)
}

/// The bytes of a four-byte chunk: one, then one more unless the third byte is
/// `=`, then one more unless the fourth is `=`.
pub open spec fn dec_chunk(c: Seq<u8>) -> Seq<u8> {
    let t = dec_triple(c);
    seq![(t >> 16) as u8] + (if c[2] != 61 { seq![(t >> 8) as u8] } else { Seq::empty() }) + (
    if c[3] != 61 { seq![t as u8] } else { Seq::empty() })
}

/// Decoding of a sequence whose length is a multiple of four, chunk by chunk.
pub open spec fn dec_chunks(p: Seq<u8>) -> Seq<u8>
    decreases p.len(),
{
    if p.len() < 4 {
        Seq::empty()
    } else {
        dec_chunks(p.take(p.len() - 4)) + dec_chunk(p.skip(p.len() - 4))
    }
}

/// Base64 decoding of the bytes `b` (standard or URL-safe alphabet, padding optional).
pub open spec fn b64_decode_spec(b: Seq<u8>) -> Result<Seq<u8>, HashError> {
    let p = b64_prepared(b);
    if p.len() % 4 != 0 || !all_b64(p) {
        Err(HashError::InvalidData)
    } else {
        Ok(dec_chunks(p))
    }
}

fn prepare_b64(bytes: &[u8]) -> (p: Vec<u8>)
    ensures
        p@ == b64_prepared(bytes@),
{
    let mut p: Vec<u8> = Vec::new();
    let mut i: usize = 0;
    while i < bytes.len()
        invariant
            i <= bytes.len(),
            p@ == standard_alphabet_bytes(bytes@.take(i as int)),
        decreases bytes.len() - i,
    {
        let x = bytes[i];
        p.push(if x == 45 { 43u8 } else if x == 95 { 47u8 } else { x });
        proof {
            assert(bytes@.take(i + 1) == bytes@.take(i as int).push(x));
        }
        i = i + 1;
    }
    assert(bytes@.take(bytes.len() as int) == bytes@);
    if p.len() % 4 == 2 {
        p.push(61);
        p.push(61);
    } else if p.len() % 4 == 3 {
        p.push(61);
    }
    p
}

/// Decode base64 (standard or URL-safe alphabet, padding optional) into bytes.
pub fn base64_decode(s: &str) -> (r: Result<Vec<u8>, HashError>)
    ensures
        match r {
            Ok(v) => b64_decode_spec(s.spec_bytes()) == Ok::<Seq<u8>, HashError>(v@),
            Err(e) => b64_decode_spec(s.spec_bytes()) == Err::<Seq<u8>, HashError>(e),
        },
{
    let p = prepare_b64(s.as_bytes());
    let mut out: Vec<u8> = Vec::new();
    let mut i: usize = 0;
    while i < p.len()
        invariant
            p@ == b64_prepared(s.spec_bytes()),
            i <= p.len(),
            i % 4 == 0,
            forall|j: int| 0 <= j < i ==> (#[trigger] b64_value(p@[j])) is Some,
            out@ == dec_chunks(p@.take(i as int)),
        decreases p.len() - i,
    {
        if p.len() - i < 4 {
            assert(p@.len() % 4 != 0);
            return Err(HashError::InvalidData);
        }
        let mut k: usize = 0;
        while k < 4
            invariant
                p@ == b64_prepared(s.spec_bytes()),
                k <= 4,
                i + 4 <= p.len(),
                forall|j: int| 0 <= j < i + k ==> (#[trigger] b64_value(p@[j])) is Some,
            decreases 4 - k,
        {
            match base64_val(p[i + k]) {
                Ok(_) => {},
                Err(e) => {
                    assert(!all_b64(p@));
                    return Err(e);
                },
            }
            k = k + 1;
        }
        let v0 = match base64_val(p[i]) { Ok(v) => v, Err(e) => { return Err(e); } };
        let v1 = match base64_val(p[i + 1]) { Ok(v) => v, Err(e) => { return Err(e); } };
        let v2 = match base64_val(p[i + 2]) { Ok(v) => v, Err(e) => { return Err(e); } };
        let v3 = match base64_val(p[i + 3]) { Ok(v) => v, Err(e) => { return Err(e); } };
        let triple = ((v0 as u32) << 18) | ((v1 as u32) << 12) | ((v2 as u32) << 6) | (v3 as u32);
        let ghost chunk = p@.subrange(i as int, i + 4);
        proof {
            assert(chunk[0] == p@[i as int] && chunk[1] == p@[i + 1]);
            assert(chunk[2] == p@[i + 2] && chunk[3] == p@[i + 3]);
            assert(triple == dec_triple(chunk));
        }
        out.push((triple >> 16) as u8);
        if p[i + 2] != 61 {
            out.push((triple >> 8) as u8);
        }
        if p[i + 3] != 61 {
            out.push(triple as u8);
        }
        proof {
            let t = p@.take(i + 4);
            assert(t.take(t.len() - 4) == p@.take(i as int));
            assert(t.skip(t.len() - 4) == chunk);
            assert(out@ == dec_chunks(p@.take(i as int)) + dec_chunk(chunk));
        }
        i = i + 4;
    }
    assert(p@.take(p.len() as int) == p@);
    Ok(out)
}

} // verus!

verus! {

proof fn lemma_b64_char(n: u32)
    requires
        n < 64,
    ensures
        b64_value(b64_char(n) as u8) == Some(n as u8),
        b64_char(n) != '=',
        b64_char(n) != '-',
        b64_char(n) != '_',
        (b64_char(n) as u32) < 128,
{
}

proof fn lemma_chunk_bits(b0: u32, b1: u32, b2: u32)
    requires
        b0 < 256,
        b1 < 256,
        b2 < 256,
    ensures
        ({
            let t = (b0 << 16) | (b1 << 8) | b2;
            &&& (((t >> 18) & 0x3f) << 18) | (((t >> 12) & 0x3f) << 12) | (((t >> 6) & 0x3f) << 6)
                | (t & 0x3f) == t
            &&& (t >> 16) as u8 == b0 as u8
            &&& (t >> 8) as u8 == b1 as u8
            &&& t as u8 == b2 as u8
            &&& (t >> 18) & 0x3f < 64
            &&& (t >> 12) & 0x3f < 64
            &&& (t >> 6) & 0x3f < 64
            &&& t & 0x3f < 64
            &&& (b2 == 0 ==> t & 0x3f == 0)
            &&& (b1 == 0 && b2 == 0 ==> (t >> 6) & 0x3f == 0)
        }),
{
    assert({
        let t = (b0 << 16) | (b1 << 8) | b2;
        &&& (((t >> 18) & 0x3f) << 18) | (((t >> 12) & 0x3f) << 12) | (((t >> 6) & 0x3f) << 6)
            | (t & 0x3f) == t
        &&& (t >> 16) as u8 == b0 as u8
        &&& (t >> 8) as u8 == b1 as u8
        &&& t as u8 == b2 as u8
        &&& (t >> 18) & 0x3f < 64
        &&& (t >> 12) & 0x3f < 64
        &&& (t >> 6) & 0x3f < 64
        &&& t & 0x3f < 64
        &&& (b2 == 0 ==> t & 0x3f == 0)
        &&& (b1 == 0 && b2 == 0 ==> (t >> 6) & 0x3f == 0)
    }) by (bit_vector)
        requires
            b0 < 256,
            b1 < 256,
            b2 < 256,
    ;
}

/// Every character is ASCII and none is `-` or `_`.
pub open spec fn b64_text(s: Seq<char>) -> bool {
    forall|i: int| 0 <= i < s.len() ==> (#[trigger] s[i] as u32) < 128 && s[i] != '-' && s[i] != '_'
        && b64_value(s[i] as u8) is Some
}

proof fn lemma_enc_chunk(c: Seq<u8>)
    requires
        1 <= c.len() <= 3,
    ensures
        enc_chunk(c).len() == 4,
        b64_text(enc_chunk(c)),
        dec_chunk(ascii_bytes(enc_chunk(c))) == c,
        enc_chunk(c)[0] != '=',
        enc_chunk(c)[1] != '=',
        c.len() > 1 ==> enc_chunk(c)[2] != '=',
        c.len() > 2 ==> enc_chunk(c)[3] != '=',
        c.len() <= 2 ==> enc_chunk(c)[3] == '=',
        c.len() == 1 ==> enc_chunk(c)[2] == '=',
{
    let b0 = c[0] as u32;
    let b1 = if c.len() > 1 { c[1] as u32 } else { 0u32 };
    let b2 = if c.len() > 2 { c[2] as u32 } else { 0u32 };
    lemma_chunk_bits(b0, b1, b2);
    let t = chunk_triple(c);
    let e = enc_chunk(c);
    lemma_b64_char((t >> 18) & 0x3f);
    lemma_b64_char((t >> 12) & 0x3f);
    lemma_b64_char((t >> 6) & 0x3f);
    lemma_b64_char(t & 0x3f);
    let a = ascii_bytes(e);
    assert(b64_value(61u8) == Some(0u8));
    assert(dec_triple(a) == t);
    assert(dec_chunk(a) =~= c);
}

proof fn lemma_b64_spec(d: Seq<u8>)
    ensures
        b64_spec(d).len() % 4 == 0,
        b64_text(b64_spec(d)),
        dec_chunks(ascii_bytes(b64_spec(d))) == d,
    decreases d.len(),
{
    if d.len() > 0 {
        let st = last_chunk_start(d.len() as int, 3);
        assert(0 <= st < d.len()) by (nonlinear_arith)
            requires
                st == ((d.len() - 1) / 3) * 3,
                d.len() > 0,
        ;
        assert(d.len() - st <= 3) by (nonlinear_arith)
            requires
                st == ((d.len() - 1) / 3) * 3,
                d.len() > 0,
        ;
        let pre = d.take(st);
        let last = d.skip(st);
        lemma_b64_spec(pre);
        lemma_enc_chunk(last);
        let x = b64_spec(pre);
        let y = enc_chunk(last);
        assert(b64_spec(d) == x + y);
        assert forall|i: int| 0 <= i < (x + y).len() implies (#[trigger] (x + y)[i] as u32) < 128
            && (x + y)[i] != '-' && (x + y)[i] != '_' && b64_value((x + y)[i] as u8) is Some by {
            if i < x.len() {
                assert((x + y)[i] == x[i]);
            } else {
                assert((x + y)[i] == y[i - x.len()]);
            }
        }
        let a = ascii_bytes(x + y);
        assert(a.take(a.len() - 4) == ascii_bytes(x));
        assert(a.skip(a.len() - 4) == ascii_bytes(y));
        assert(pre + last == d);
    }
}

/// Law: decoding the standard base64 encoding of `d` gives back `d`.
pub proof fn lemma_base64_roundtrip(d: Seq<u8>)
    ensures
        b64_decode_spec(ascii_bytes(b64_spec(d))) == Ok::<Seq<u8>, HashError>(d),
{
    lemma_b64_spec(d);
    let a = ascii_bytes(b64_spec(d));
    assert(standard_alphabet_bytes(a) == a) by {
        assert forall|i: int| 0 <= i < a.len() implies standard_alphabet_bytes(a)[i] == a[i] by {
            let c = b64_spec(d)[i];
            assert((c as u32) < 128 && c != '-' && c != '_');
        }
    }
    assert(b64_prepared(a) == a);
    assert forall|i: int| 0 <= i < a.len() implies (#[trigger] b64_value(a[i])) is Some by {
        let c = b64_spec(d)[i];
        assert(b64_value(c as u8) is Some);
    }
}

} // verus!

verus! {

proof fn lemma_trim_url(x: Seq<char>)
    ensures
        trim_padding(url_alphabet(x)) == url_alphabet(trim_padding(x)),
    decreases x.len(),
{
    if x.len() > 0 && x.last() == '=' {
        lemma_trim_url(x.drop_last());
        assert(url_alphabet(x).drop_last() == url_alphabet(x.drop_last()));
    }
}

/// The number of `=` characters that pad the base64 encoding of `n` bytes.
pub open spec fn b64_padding(n: nat) -> int {
    if n % 3 == 1 {
        2
    } else if n % 3 == 2 {
        1
    } else {
        0
    }
}

proof fn lemma_trim_b64(d: Seq<u8>)
    ensures
        b64_padding(d.len()) <= b64_spec(d).len(),
        trim_padding(b64_spec(d)) == b64_spec(d).take(b64_spec(d).len() - b64_padding(d.len())),
        forall|i: int| b64_spec(d).len() - b64_padding(d.len()) <= i < b64_spec(d).len()
            ==> #[trigger] b64_spec(d)[i] == '=',
{
    let b = b64_spec(d);
    if d.len() > 0 {
        let st = last_chunk_start(d.len() as int, 3);
        assert(0 <= st < d.len()) by (nonlinear_arith)
            requires
                st == ((d.len() - 1) / 3) * 3,
                d.len() > 0,
        ;
        let k = d.len() - st;
        assert(1 <= k <= 3 && (k == 3 <==> d.len() % 3 == 0) && (k == 1 <==> d.len() % 3 == 1)
            && (k == 2 <==> d.len() % 3 == 2)) by (nonlinear_arith)
            requires
                st == ((d.len() - 1) / 3) * 3,
                k == d.len() - st,
                d.len() > 0,
        ;
        let pre = d.take(st);
        let last = d.skip(st);
        lemma_enc_chunk(last);
        let x = b64_spec(pre);
        let y = enc_chunk(last);
        assert(b == x + y);
        let n = b.len();
        if k == 3 {
            assert(b.last() == y[3]);
            assert(trim_padding(b) == b);
            assert(b.take(n as int) == b);
        } else if k == 2 {
            assert(b.last() == y[3]);
            assert(b.drop_last().last() == y[2]);
            assert(trim_padding(b.drop_last()) == b.drop_last());
            assert(trim_padding(b) == trim_padding(b.drop_last()));
            assert(b.drop_last() == b.take(n - 1));
        } else {
            assert(b.last() == y[3]);
            assert(b.drop_last().last() == y[2]);
            assert(b.drop_last().drop_last().last() == y[1]);
            assert(trim_padding(b.drop_last().drop_last()) == b.drop_last().drop_last());
            assert(trim_padding(b.drop_last()) == trim_padding(b.drop_last().drop_last()));
            assert(trim_padding(b) == trim_padding(b.drop_last()));
            assert(b.drop_last().drop_last() == b.take(n - 2));
        }
    } else {
        assert(b.take(0) == b);
    }
}

/// Law: decoding the URL-safe, unpadded base64 encoding of `d` gives back `d`.
pub proof fn lemma_base64url_roundtrip(d: Seq<u8>)
    ensures
        b64_decode_spec(ascii_bytes(b64url_spec(d))) == Ok::<Seq<u8>, HashError>(d),
{
    let b = b64_spec(d);
    lemma_b64_spec(d);
    lemma_trim_b64(d);
    lemma_trim_url(b);
    let z = b.take(b.len() - b64_padding(d.len()));
    assert(b64url_spec(d) == url_alphabet(z));
    let u = ascii_bytes(url_alphabet(z));
    assert(standard_alphabet_bytes(u) == ascii_bytes(z)) by {
        assert forall|i: int| 0 <= i < u.len() implies standard_alphabet_bytes(u)[i] == ascii_bytes(z)[i] by {
            let c = z[i];
            assert(c == b[i]);
            assert((c as u32) < 128 && c != '-' && c != '_');
        }
    }
    let a = ascii_bytes(b);
    lemma_base64_roundtrip(d);
    assert(standard_alphabet_bytes(a) == a) by {
        assert forall|i: int| 0 <= i < a.len() implies standard_alphabet_bytes(a)[i] == a[i] by {
            let c = b[i];
            assert((c as u32) < 128 && c != '-' && c != '_');
        }
    }
    let m = ascii_bytes(z);
    let pad = b64_padding(d.len());
    if pad == 2 {
        assert(b[b.len() - 1] == '=' && b[b.len() - 2] == '=');
        assert(m + seq![61u8, 61u8] == a);
    } else if pad == 1 {
        assert(b[b.len() - 1] == '=');
        assert(m + seq![61u8] == a);
    } else {
        assert(m == a);
    }
    assert(b64_prepared(u) == b64_prepared(a));
}

} // verus!

verus! {

/// The reflected CRC-32 polynomial.
pub const CRC32_POLY: u32 = 0xEDB8_8320;

/// One bit step of the reflected CRC-32 shift register.
pub open spec fn crc_bit(c: u32) -> u32 {
    if c & 1 != 0 {
        (c >> 1) ^ CRC32_POLY
    } else {
        c >> 1
    }
}

/// `n` bit steps.
pub open spec fn crc_bits(c: u32, n: nat) -> u32
    decreases n,
{
    if n == 0 {
        c
    } else {
        crc_bit(crc_bits(c, (n - 1) as nat))
    }
}

/// The register after `s`, starting from all ones.
pub open spec fn crc_register(s: Seq<u8>) -> u32
    decreases s.len(),
{
    if s.len() == 0 {
        0xFFFF_FFFFu32
    } else {
        crc_bits(crc_register(s.drop_last()) ^ (s.last() as u32), 8)
    }
}

/// The CRC-32 (ISO 3309 / ITU-T V.42) checksum of `s`.
pub open spec fn crc32_spec(s: Seq<u8>) -> u32 {
    !crc_register(s)
}

/// Compute CRC-32 using the standard polynomial (0xEDB88320 reflected).
pub fn crc32_compute(data: &[u8]) -> (r: u32)
    ensures
        r == crc32_spec(data@),
{
    let mut crc: u32 = 0xFFFF_FFFF;
    let mut i: usize = 0;
    while i < data.len()
        invariant
            i <= data.len(),
            crc == crc_register(data@.take(i as int)),
        decreases data.len() - i,
    {
        proof {
            assert(data@.take(i + 1).drop_last() == data@.take(i as int));
        }
        crc = crc ^ (data[i] as u32);
        let ghost start = crc;
        let mut k: usize = 0;
        while k < 8
            invariant
                k <= 8,
                crc == crc_bits(start, k as nat),
            decreases 8 - k,
        {
            if crc & 1 != 0 {
                crc = (crc >> 1) ^ 0xEDB8_8320;
            } else {
                crc = crc >> 1;
            }
            k = k + 1;
        }
        i = i + 1;
    }
    assert(data@.take(data.len() as int) == data@);
    !crc
}

/// The text encoding of `d` in the given format.
pub open spec fn encode_spec(d: Seq<u8>, encoding: Encoding) -> Seq<char> {
    match encoding {
        Encoding::Hex => hex_spec(d),
        Encoding::Base64 => b64_spec(d),
        Encoding::Base64Url => b64url_spec(d),
    }
}

/// The bytes decoded from the text bytes `b` in the given format.
pub open spec fn decode_spec(b: Seq<u8>, encoding: Encoding) -> Result<Seq<u8>, HashError> {
    match encoding {
        Encoding::Hex => hex_decode_spec(b),
        Encoding::Base64 | Encoding::Base64Url => b64_decode_spec(b),
    }
}

/// Encode a byte slice to the requested text format.
pub fn encode(data: Vec<u8>, encoding: Encoding) -> (s: String)
    ensures
        s@ == encode_spec(data@, encoding),
{
    match encoding {
        Encoding::Hex => hex_encode(data.as_slice()),
        Encoding::Base64 => base64_encode(data.as_slice()),
        Encoding::Base64Url => base64url_encode(data.as_slice()),
    }
}

/// Decode a text string back to bytes using the specified encoding.
pub fn decode(data: String, encoding: Encoding) -> (r: Result<Vec<u8>, HashError>)
    ensures
        match r {
            Ok(v) => decode_spec(vstd::utf8::encode_utf8(data@), encoding) == Ok::<Seq<u8>, HashError>(v@),
            Err(e) => decode_spec(vstd::utf8::encode_utf8(data@), encoding) == Err::<Seq<u8>, HashError>(e),
        },
{
    match encoding {
        Encoding::Hex => hex_decode(data.as_str()),
        Encoding::Base64 | Encoding::Base64Url => base64_decode(data.as_str()),
    }
}

} // verus!

verus! {

/// Compute a CRC-32 (ISO 3309 / ITU-T V.42) checksum.
pub fn crc32(data: Vec<u8>) -> (r: u32)
    ensures
        r == crc32_spec(data@),
{
    crc32_compute(data.as_slice())
}

/// Verify that data matches an expected CRC-32 checksum.
pub fn verify_crc32(data: Vec<u8>, expected: u32) -> (ok: bool)
    ensures
        ok == (crc32_spec(data@) == expected),
{
    crc32_compute(data.as_slice()) == expected
}

/// Hash a block of data with the given configuration: FNV-1a, as eight
/// big-endian bytes and their hex form; empty input is an error.
pub fn hash(data: Vec<u8>, config: HashConfig) -> (r: Result<HashOutput, HashError>)
    ensures
        data@.len() == 0 <==> r is Err,
        r matches Err(e) ==> e == HashError::EmptyInput,
        r matches Ok(out) ==> out.bytes@ == be_bytes(fnv1a_spec(data@)) && out.hex@ == hex_spec(
            out.bytes@,
        ),
{
    if data.len() == 0 {
        return Err(HashError::EmptyInput);
    }
    let digest = fnv1a_bytes(data.as_slice());
    apply_hmac(digest.as_slice(), &config);
    let hex = hex_encode(digest.as_slice());
    Ok(HashOutput { hex, bytes: digest })
}

/// Hash each chunk and return a stream of intermediate digests; the stream is
/// a marker that the component runtime fills.
pub fn hash_stream(chunks: Vec<Vec<u8>>, algorithm: Algorithm) -> (s: Stream<Vec<u8>>) {
    Stream::new()
}

/// An incremental FNV-1a hasher that accepts data in chunks.
pub struct Hasher {
    state: u64,
    bytes_written: u64,
    fed: Ghost<Seq<u8>>,
}

impl View for Hasher {
    type V = Seq<u8>;

    /// The bytes fed since the hasher was created or last reset.
    closed spec fn view(&self) -> Seq<u8> {
        self.fed@
    }
}

impl Hasher {
    #[verifier::type_invariant]
    spec fn inv(self) -> bool {
        &&& self.state == fnv1a_spec(self.fed@)
        &&& self.bytes_written == self.fed@.len()
    }

    /// Create a new hasher for the given algorithm.
    pub fn new(algorithm: Algorithm) -> (h: Self)
        ensures
            h@ == Seq::<u8>::empty(),
    {
        Hasher { state: FNV_BASIS, bytes_written: 0, fed: Ghost(Seq::empty()) }
    }

    /// Feed data into the hasher.
    pub fn update(&mut self, data: Vec<u8>)
        requires
            old(self)@.len() + data@.len() <= u64::MAX,
        ensures
            final(self)@ == old(self)@ + data@,
    {
        proof {
            use_type_invariant(&*self);
            lemma_fnv1a_concat(FNV_BASIS, self.fed@, data@);
        }
        let state = fnv1a_update(self.state, data.as_slice());
        let bytes_written = self.bytes_written + data.len() as u64;
        *self = Hasher { state, bytes_written, fed: Ghost(self.fed@ + data@) };
    }

    /// Return the number of bytes fed so far.
    pub fn bytes_written(&self) -> (n: u64)
        ensures
            n == self@.len(),
    {
        proof { use_type_invariant(self); }
        self.bytes_written
    }

    /// Finalise the hash and return the digest of everything fed so far.
    pub fn finalize(&self) -> (out: HashOutput)
        ensures
            out.bytes@ == be_bytes(fnv1a_spec(self@)),
            out.hex@ == hex_spec(out.bytes@),
    {
        proof { use_type_invariant(self); }
        let bytes = u64_be_bytes(self.state);
        let hex = hex_encode(bytes.as_slice());
        HashOutput { hex, bytes }
    }

    /// Reset the hasher to its initial state.
    pub fn reset(&mut self)
        ensures
            final(self)@ == Seq::<u8>::empty(),
    {
        *self = Hasher { state: FNV_BASIS, bytes_written: 0, fed: Ghost(Seq::empty()) };
    }
}

} // verus!

verus! {

proof fn lemma_ascii_utf8(cs: Seq<char>)
    requires
        vstd::utf8::is_ascii_chars(cs),
    ensures
        vstd::utf8::encode_utf8(cs) == ascii_bytes(cs),
{
    vstd::utf8::is_ascii_chars_encode_utf8(cs);
    assert(vstd::utf8::encode_utf8(cs) =~= ascii_bytes(cs));
}

proof fn lemma_ascii_char(c: char)
    requires
        (c as u32) < 128,
    ensures
        '\0' <= c <= '\u{7f}',
{
}

proof fn lemma_hex_ascii(d: Seq<u8>)
    ensures
        vstd::utf8::is_ascii_chars(hex_spec(d)),
{
    lemma_hex_spec_index(d);
    let s = hex_spec(d);
    assert forall|i: int| 0 <= i < s.len() implies '\0' <= #[trigger] s[i] <= '\u{7f}' by {
        let k = i / 2;
        let x = d[k];
        assert(x >> 4 < 16 && x & 0x0f < 16) by (bit_vector);
        lemma_hex_digit_value(x >> 4);
        lemma_hex_digit_value(x & 0x0f);
        if i % 2 == 0 {
            assert(i == 2 * k);
        } else {
            assert(i == 2 * k + 1);
        }
    }
}

proof fn lemma_b64_std_ascii(d: Seq<u8>)
    ensures
        vstd::utf8::is_ascii_chars(b64_spec(d)),
{
    lemma_b64_spec(d);
    assert forall|i: int| 0 <= i < b64_spec(d).len() implies '\0' <= #[trigger] b64_spec(d)[i] <= '\u{7f}' by {
        let c = b64_spec(d)[i];
        assert((c as u32) < 128);
        lemma_ascii_char(c);
    }
}

proof fn lemma_b64_ascii(d: Seq<u8>)
    ensures
        vstd::utf8::is_ascii_chars(b64_spec(d)),
        vstd::utf8::is_ascii_chars(b64url_spec(d)),
{
    lemma_b64_std_ascii(d);
    lemma_trim_b64(d);
    let b = b64_spec(d);
    lemma_trim_url(b);
    let z = b.take(b.len() - b64_padding(d.len()));
    assert(b64url_spec(d) == url_alphabet(z));
    assert forall|i: int| 0 <= i < url_alphabet(z).len() implies '\0' <= #[trigger] url_alphabet(z)[i] <= '\u{7f}' by {
        assert(z[i] == b[i]);
        assert('\0' <= b[i] <= '\u{7f}');
    }
}

/// Decoding the text that encoding gives, in the same format, gives the
/// bytes back.
pub proof fn lemma_encode_decode(d: Seq<u8>, encoding: Encoding)
    ensures
        decode_spec(vstd::utf8::encode_utf8(encode_spec(d, encoding)), encoding) == Ok::<Seq<u8>, HashError>(d),
{
    match encoding {
        Encoding::Hex => {
            lemma_hex_ascii(d);
            lemma_ascii_utf8(hex_spec(d));
            lemma_hex_roundtrip(d);
        },
        Encoding::Base64 => {
            lemma_b64_ascii(d);
            lemma_ascii_utf8(b64_spec(d));
            lemma_base64_roundtrip(d);
        },
        Encoding::Base64Url => {
            lemma_b64_ascii(d);
            lemma_ascii_utf8(b64url_spec(d));
            lemma_base64url_roundtrip(d);
        },
    }
}


/// The upper-case form of a hex digit is a hex digit of the same value.
proof fn lemma_hex_digit_upper(n: u8)
    requires
        n < 16,
    ensures
        hex_value(ascii_uppercase(seq![hex_digit(n)])[0] as u8) == Some(n),
        (ascii_uppercase(seq![hex_digit(n)])[0] as u32) < 128,
{
}

/// Law: a string holding the upper-cased hex encoding of `d` decodes back to `d`.
pub proof fn lemma_hex_upper_string_roundtrip(s: &str, d: Seq<u8>)
    requires
        s@ == ascii_uppercase(hex_spec(d)),
    ensures
        hex_decode_spec(s.spec_bytes()) == Ok::<Seq<u8>, HashError>(d),
{
    lemma_hex_spec_index(d);
    let h = hex_spec(d);
    let u = ascii_uppercase(h);
    assert forall|i: int| 0 <= i < u.len() implies u[i] == ascii_uppercase(seq![#[trigger] h[i]])[0] by {}
    assert forall|i: int| 0 <= i < s@.len() implies '\0' <= #[trigger] s@[i] <= '\u{7f}' && hex_value(s@[i] as u8) is Some by {
        let k = i / 2;
        let x = d[k];
        assert(x >> 4 < 16 && x & 0x0f < 16) by (bit_vector);
        lemma_hex_digit_upper(x >> 4);
        lemma_hex_digit_upper(x & 0x0f);
        assert(u[i] == ascii_uppercase(seq![h[i]])[0]);
        if i % 2 == 0 {
            assert(i == 2 * k);
        } else {
            assert(i == 2 * k + 1);
        }
    }
    assert(vstd::string::is_ascii(s));
    vstd::string::is_ascii_spec_bytes(s);
    let b = s.spec_bytes();
    assert(b == ascii_bytes(s@));
    assert forall|i: int| 0 <= i < b.len() implies (#[trigger] hex_value(b[i])) is Some by {
        assert(b[i] == s@[i] as u8);
    }
    assert forall|k: int| 0 <= k < d.len() implies #[trigger] hex_pair(b, k) == d[k] by {
        let x = d[k];
        assert(x >> 4 < 16 && x & 0x0f < 16) by (bit_vector);
        lemma_hex_digit_upper(x >> 4);
        lemma_hex_digit_upper(x & 0x0f);
        assert(u[2 * k] == ascii_uppercase(seq![h[2 * k]])[0]);
        assert(u[2 * k + 1] == ascii_uppercase(seq![h[2 * k + 1]])[0]);
        assert(b[2 * k] == u[2 * k] as u8);
        assert(b[2 * k + 1] == u[2 * k + 1] as u8);
        assert(((x >> 4) * 16 + (x & 0x0f)) as u8 == x) by (bit_vector);
    }
    assert(Seq::new(b.len() / 2, |k: int| hex_pair(b, k)) =~= d);
}

/// Law: a string holding the standard base64 encoding of `d` decodes back to `d`.
pub proof fn lemma_base64_string_roundtrip(s: &str, d: Seq<u8>)
    requires
        s@ == b64_spec(d),
    ensures
        b64_decode_spec(s.spec_bytes()) == Ok::<Seq<u8>, HashError>(d),
{
    lemma_b64_ascii(d);
    assert(vstd::string::is_ascii(s));
    vstd::string::is_ascii_spec_bytes(s);
    assert(s.spec_bytes() =~= ascii_bytes(s@));
    lemma_base64_roundtrip(d);
}

/// Law: a string holding the URL-safe base64 encoding of `d` decodes back to `d`.
pub proof fn lemma_base64url_string_roundtrip(s: &str, d: Seq<u8>)
    requires
        s@ == b64url_spec(d),
    ensures
        b64_decode_spec(s.spec_bytes()) == Ok::<Seq<u8>, HashError>(d),
{
    lemma_b64_ascii(d);
    assert(vstd::string::is_ascii(s));
    vstd::string::is_ascii_spec_bytes(s);
    assert(s.spec_bytes() =~= ascii_bytes(s@));
    lemma_base64url_roundtrip(d);
}

} // verus!
