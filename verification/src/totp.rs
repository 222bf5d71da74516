//! One-time passwords: HMAC-based (counter) and time-based codes, with the
//! base-32 and URL decoding their provisioning strings use.

use vstd::prelude::*;
use vstd::string::StringSliceAdditionalSpecFns;
use hmac::Mac;

verus! {

/// What HMAC-SHA-1 computes; the result depends on key and text alone.
pub uninterp spec fn hmac_sha1_of(key: Seq<u8>, text: Seq<u8>) -> Seq<u8>;

/// What HMAC-SHA-256 computes; the result depends on key and text alone.
pub uninterp spec fn hmac_sha256_of(key: Seq<u8>, text: Seq<u8>) -> Seq<u8>;

/// What HMAC-SHA-512 computes; the result depends on key and text alone.
pub uninterp spec fn hmac_sha512_of(key: Seq<u8>, text: Seq<u8>) -> Seq<u8>;

/// Relies on the hmac crate's `Hmac<Sha1>`: any key length is accepted, and
/// the authentication code is 20 bytes, a function of key and text alone.
#[verifier::external_body]
fn hmac_sha1(key: &[u8], text: &[u8]) -> (r: Vec<u8>)
    ensures
        r@ == hmac_sha1_of(key@, text@),
        r@.len() == 20,
{
    let mut mac = <hmac::Hmac<sha1::Sha1> as hmac::Mac>::new_from_slice(key).unwrap();
    mac.update(text);
    mac.finalize().into_bytes().to_vec()
}

/// Relies on the hmac crate's `Hmac<Sha256>`: any key length is accepted,
/// and the authentication code is 32 bytes, a function of key and text
/// alone.
#[verifier::external_body]
fn hmac_sha256(key: &[u8], text: &[u8]) -> (r: Vec<u8>)
    ensures
        r@ == hmac_sha256_of(key@, text@),
        r@.len() == 32,
{
    let mut mac = <hmac::Hmac<sha2::Sha256> as hmac::Mac>::new_from_slice(key).unwrap();
    mac.update(text);
    mac.finalize().into_bytes().to_vec()
}

/// Relies on the hmac crate's `Hmac<Sha512>`: any key length is accepted,
/// and the authentication code is 64 bytes, a function of key and text
/// alone.
#[verifier::external_body]
fn hmac_sha512(key: &[u8], text: &[u8]) -> (r: Vec<u8>)
    ensures
        r@ == hmac_sha512_of(key@, text@),
        r@.len() == 64,
{
    let mut mac = <hmac::Hmac<sha2::Sha512> as hmac::Mac>::new_from_slice(key).unwrap();
    mac.update(text);
    mac.finalize().into_bytes().to_vec()
}

/// The hash an authentication code is built over.
#[derive(Clone, Copy, Debug, Eq, Hash, PartialEq, Structural)]
pub enum Algorithm {
    /// HMAC over SHA-1, the historical default.
    Sha1,
    /// HMAC over SHA-256.
    Sha256,
    /// HMAC over SHA-512.
    Sha512,
}

impl Default for Algorithm {
    /// The default algorithm is SHA-1.
    fn default() -> (r: Self)
        ensures
            r == Algorithm::Sha1,
    {
        Algorithm::Sha1
    }
}

/// The authentication code an algorithm computes.
pub open spec fn spec_hmac(alg: Algorithm, key: Seq<u8>, text: Seq<u8>) -> Seq<u8> {
    match alg {
        Algorithm::Sha1 => hmac_sha1_of(key, text),
        Algorithm::Sha256 => hmac_sha256_of(key, text),
        Algorithm::Sha512 => hmac_sha512_of(key, text),
    }
}

/// The length of an algorithm's authentication code.
pub open spec fn spec_hmac_len(alg: Algorithm) -> int {
    match alg {
        Algorithm::Sha1 => 20,
        Algorithm::Sha256 => 32,
        Algorithm::Sha512 => 64,
    }
}

impl Algorithm {
    /// Computes the authentication code of `text` under `key`.
    pub fn hmac(&self, key: &[u8], text: &[u8]) -> (r: Vec<u8>)
        ensures
            r@ == spec_hmac(*self, key@, text@),
            r@.len() == spec_hmac_len(*self),
    {
        match self {
            Self::Sha1 => hmac_sha1(key, text),
            Self::Sha256 => hmac_sha256(key, text),
            Self::Sha512 => hmac_sha512(key, text),
        }
    }
}

/// The value of one ASCII hexadecimal digit, or the sentinel 0xFF.
pub open spec fn spec_hex_nibble(hex: u8) -> u8 {
    if 48 <= hex <= 57 {
        (hex - 48) as u8
    } else if 65 <= hex <= 70 {
        (hex - 65 + 10) as u8
    } else if 97 <= hex <= 102 {
        (hex - 97 + 10) as u8
    } else {
        0xFF
    }
}

/// The value of one ASCII hexadecimal digit; anything else maps to the
/// sentinel 0xFF.
pub fn hex_to_nibble(hex: u8) -> (r: u8)
    ensures
        r == spec_hex_nibble(hex),
{
    if hex >= 48 && hex <= 57 {
        hex - 48
    } else if hex >= 65 && hex <= 70 {
        hex - 65 + 10
    } else if hex >= 97 && hex <= 102 {
        hex - 97 + 10
    } else {
        0xFF
    }
}

/// What URL decoding makes of a byte run: percent escapes become bytes,
/// broken escapes pass through unchanged, and a plus becomes a space when
/// `plus` is set.
pub open spec fn spec_urldecode(s: Seq<u8>, plus: bool) -> Seq<u8>
    decreases s.len(),
{
    if s.len() == 0 {
        Seq::empty()
    } else if s[0] == 37 {
        if s.len() == 1 {
            seq![37u8]
        } else if spec_hex_nibble(s[1]) == 0xFF {
            seq![37u8, s[1]] + spec_urldecode(s.skip(2), plus)
        } else if s.len() == 2 {
            seq![37u8, s[1]]
        } else if spec_hex_nibble(s[2]) == 0xFF {
            seq![37u8, s[1], s[2]] + spec_urldecode(s.skip(3), plus)
        } else {
            seq![(spec_hex_nibble(s[1]) * 16 + spec_hex_nibble(s[2])) as u8] + spec_urldecode(
                s.skip(3),
                plus,
            )
        }
    } else if s[0] == 43 && plus {
        seq![32u8] + spec_urldecode(s.skip(1), plus)
    } else {
        seq![s[0]] + spec_urldecode(s.skip(1), plus)
    }
}

/// Decodes percent escapes (and optionally pluses) in a byte run.
pub fn urldecode(value: &[u8], plus: bool) -> (r: Vec<u8>)
    ensures
        r@ == spec_urldecode(value@, plus),
{
    let mut bytes: Vec<u8> = Vec::new();
    proof {
        assert(value@.skip(0) =~= value@);
        assert(bytes@ + spec_urldecode(value@, plus) =~= spec_urldecode(value@, plus));
    }
    let mut i: usize = 0;
    while i < value.len()
        invariant
            0 <= i <= value@.len(),
            spec_urldecode(value@, plus) == bytes@ + spec_urldecode(value@.skip(i as int), plus),
        decreases value@.len() - i,
    {
        let ghost pre = bytes@;
        let ghost rest = value@.skip(i as int);
        proof {
            assert(rest[0] == value@[i as int]);
        }
        let b = value[i];
        if b == 37 {
            if i + 1 >= value.len() {
                bytes.push(37);
                i += 1;
                proof {
                    assert(rest.len() == 1);
                    assert(value@.skip(i as int) =~= Seq::<u8>::empty());
                    assert(spec_urldecode(value@, plus) =~= bytes@ + spec_urldecode(
                        value@.skip(i as int),
                        plus,
                    ));
                }
                continue ;
            }
            let top = value[i + 1];
            proof {
                assert(rest[1] == value@[i + 1]);
            }
            let top_nibble = hex_to_nibble(top);
            if top_nibble == 0xFF {
                bytes.push(37);
                bytes.push(top);
                i += 2;
                proof {
                    assert(rest.skip(2) =~= value@.skip(i as int));
                    assert(bytes@ =~= pre + seq![37u8, top]);
                    assert(spec_urldecode(value@, plus) =~= bytes@ + spec_urldecode(
                        value@.skip(i as int),
                        plus,
                    ));
                }
                continue ;
            }
            if i + 2 >= value.len() {
                bytes.push(37);
                bytes.push(top);
                i += 2;
                proof {
                    assert(rest.len() == 2);
                    assert(bytes@ =~= pre + seq![37u8, top]);
                    assert(value@.skip(i as int) =~= Seq::<u8>::empty());
                    assert(spec_urldecode(value@, plus) =~= bytes@ + spec_urldecode(
                        value@.skip(i as int),
                        plus,
                    ));
                }
                continue ;
            }
            let bottom = value[i + 2];
            proof {
                assert(rest[2] == value@[i + 2]);
            }
            let bottom_nibble = hex_to_nibble(bottom);
            if bottom_nibble == 0xFF {
                bytes.push(37);
                bytes.push(top);
                bytes.push(bottom);
                i += 3;
                proof {
                    assert(rest.skip(3) =~= value@.skip(i as int));
                    assert(bytes@ =~= pre + seq![37u8, top, bottom]);
                    assert(spec_urldecode(value@, plus) =~= bytes@ + spec_urldecode(
                        value@.skip(i as int),
                        plus,
                    ));
                }
                continue ;
            }
            bytes.push(top_nibble * 16 + bottom_nibble);
            i += 3;
            proof {
                assert(rest.skip(3) =~= value@.skip(i as int));
                assert(bytes@ =~= pre + seq![(spec_hex_nibble(rest[1]) * 16 + spec_hex_nibble(
                    rest[2],
                )) as u8]);
                assert(spec_urldecode(value@, plus) =~= bytes@ + spec_urldecode(
                    value@.skip(i as int),
                    plus,
                ));
            }
        } else if b == 43 && plus {
            bytes.push(32);
            i += 1;
            proof {
                assert(rest.skip(1) =~= value@.skip(i as int));
                assert(bytes@ =~= pre + seq![32u8]);
                assert(spec_urldecode(value@, plus) =~= bytes@ + spec_urldecode(
                    value@.skip(i as int),
                    plus,
                ));
            }
        } else {
            bytes.push(b);
            i += 1;
            proof {
                assert(rest.skip(1) =~= value@.skip(i as int));
                assert(bytes@ =~= pre + seq![b]);
                assert(spec_urldecode(value@, plus) =~= bytes@ + spec_urldecode(
                    value@.skip(i as int),
                    plus,
                ));
            }
        }
    }
    proof {
        assert(value@.skip(value@.len() as int) =~= Seq::<u8>::empty());
        assert(bytes@ + Seq::<u8>::empty() =~= bytes@);
    }
    bytes
}


/// The low byte of a 64-bit word.
pub open spec fn spec_low_byte(v: u64) -> u8 {
    (v & 0xFF) as u8
}

/// Extracts the low byte of a 64-bit word.
fn low_byte(v: u64) -> (r: u8)
    ensures
        r == spec_low_byte(v),
{
    proof {
        assert(v & 0xFF < 256) by (bit_vector);
    }
    (v & 0xFF) as u8
}

/// The five-bit value one base-32 character denotes: letters in either
/// case count from zero, the digits two to seven from twenty-six.
pub open spec fn spec_b32_char_val(b: u8) -> Option<u64> {
    if 65 <= b <= 90 {
        Some((b - 65) as u64)
    } else if 97 <= b <= 122 {
        Some((b - 97) as u64)
    } else if 50 <= b <= 55 {
        Some((b - 50 + 26) as u64)
    } else {
        None
    }
}

/// The packed value of one chunk of up to eight base-32 characters, five
/// bits per character, first character highest.
pub open spec fn spec_b32_chunk_val(c: Seq<u8>) -> Option<u64>
    decreases c.len(),
{
    if c.len() == 0 {
        Some(0)
    } else {
        match spec_b32_chunk_val(c.drop_last()) {
            None => None,
            Some(v) => match spec_b32_char_val(c.last()) {
                None => None,
                Some(d) => Some((v << 5) | d),
            },
        }
    }
}

/// An invalid character anywhere invalidates the whole chunk.
proof fn lemma_b32_chunk_val_invalid(c: Seq<u8>, j: int)
    requires
        0 <= j < c.len(),
        spec_b32_char_val(c[j]) is None,
    ensures
        spec_b32_chunk_val(c) is None,
    decreases c.len(),
{
    if j == c.len() - 1 {
    } else {
        lemma_b32_chunk_val_invalid(c.drop_last(), j);
    }
}

/// The bytes one chunk of base-32 characters decodes to.  Chunks of one,
/// three or six characters cannot occur in well-formed input, and a chunk
/// must not be empty.
pub open spec fn spec_b32_chunk_bytes(c: Seq<u8>) -> Option<Seq<u8>> {
    match spec_b32_chunk_val(c) {
        None => None,
        Some(v) => {
            if c.len() == 2 {
                Some(seq![spec_low_byte(v >> 2)])
            } else if c.len() == 4 {
                Some(seq![spec_low_byte(v >> 12), spec_low_byte(v >> 4)])
            } else if c.len() == 5 {
                Some(seq![spec_low_byte(v >> 17), spec_low_byte(v >> 9), spec_low_byte(v >> 1)])
            } else if c.len() == 7 {
                Some(
                    seq![
                        spec_low_byte(v >> 27),
                        spec_low_byte(v >> 19),
                        spec_low_byte(v >> 11),
                        spec_low_byte(v >> 3),
                    ],
                )
            } else if c.len() == 8 {
                Some(
                    seq![
                        spec_low_byte(v >> 32),
                        spec_low_byte(v >> 24),
                        spec_low_byte(v >> 16),
                        spec_low_byte(v >> 8),
                        spec_low_byte(v),
                    ],
                )
            } else {
                None
            }
        },
    }
}

/// What base-32 decoding makes of a character run, processed in chunks of
/// eight characters.
pub open spec fn spec_decode_b32(s: Seq<u8>) -> Option<Seq<u8>>
    decreases s.len(),
{
    if s.len() == 0 {
        Some(Seq::empty())
    } else {
        let k = if s.len() < 8 {
            s.len() as int
        } else {
            8
        };
        match spec_b32_chunk_bytes(s.take(k)) {
            None => None,
            Some(bs) => match spec_decode_b32(s.skip(k)) {
                None => None,
                Some(rest) => Some(bs + rest),
            },
        }
    }
}

/// Decodes an unpadded base-32 string into bytes.
///
/// Fails on characters outside the base-32 alphabet and on lengths that no
/// whole number of bytes encodes to.
pub fn decode_base32(b32: &str) -> (r: Option<Vec<u8>>)
    ensures
        match r {
            Some(v) => spec_decode_b32(b32.spec_bytes()) == Some(v@),
            None => spec_decode_b32(b32.spec_bytes()) is None,
        },
{
    let bytes = b32.as_bytes();
    let mut ret: Vec<u8> = Vec::new();
    proof {
        assert(bytes@.skip(0) =~= bytes@);
        assert(ret@ + spec_decode_b32(bytes@)->Some_0 =~= spec_decode_b32(bytes@)->Some_0);
    }
    let mut i: usize = 0;
    while i < bytes.len()
        invariant
            0 <= i <= bytes@.len(),
            bytes@ == b32.spec_bytes(),
            match spec_decode_b32(bytes@.skip(i as int)) {
                Some(rest) => spec_decode_b32(bytes@) == Some(ret@ + rest),
                None => spec_decode_b32(bytes@) is None,
            },
        decreases bytes@.len() - i,
    {
        let ghost suffix = bytes@.skip(i as int);
        let chunk_len: usize = if bytes.len() - i < 8 {
            bytes.len() - i
        } else {
            8
        };
        let ghost chunk = suffix.take(chunk_len as int);
        let mut value: u64 = 0;
        let mut j: usize = 0;
        while j < chunk_len
            invariant
                0 <= j <= chunk_len,
                0 <= i < bytes@.len(),
                i + chunk_len <= bytes@.len(),
                suffix == bytes@.skip(i as int),
                chunk == suffix.take(chunk_len as int),
                chunk_len <= 8,
                chunk_len as int == (if bytes@.len() - i < 8 {
                    bytes@.len() - i
                } else {
                    8
                }),
                spec_b32_chunk_val(chunk.take(j as int)) == Some(value),
                bytes@ == b32.spec_bytes(),
                match spec_decode_b32(bytes@.skip(i as int)) {
                    Some(rest) => spec_decode_b32(bytes@) == Some(ret@ + rest),
                    None => spec_decode_b32(bytes@) is None,
                },
            decreases chunk_len - j,
        {
            proof {
                assert(chunk.take(j + 1).drop_last() =~= chunk.take(j as int));
                assert(chunk.take(j + 1).last() == chunk[j as int]);
                assert(chunk[j as int] == bytes@[i + j]);
            }
            let n = bytes.len();
            proof {
                assert(i + j < n);
            }
            let b = bytes[i + j];
            let d: u64 = if b >= 65 && b <= 90 {
                (b - 65) as u64
            } else if b >= 97 && b <= 122 {
                (b - 97) as u64
            } else if b >= 50 && b <= 55 {
                (b - 50 + 26) as u64
            } else {
                proof {
                    lemma_b32_chunk_val_invalid(chunk, j as int);
                    assert(spec_b32_chunk_bytes(chunk) is None);
                    assert(suffix.len() > 0);
                    assert(chunk_len as int == (if suffix.len() < 8 {
                        suffix.len() as int
                    } else {
                        8
                    }));
                    assert(spec_decode_b32(bytes@.skip(i as int)) is None);
                }
                return None;
            };
            value = (value << 5u64) | d;
            j += 1;
            proof {
                assert(spec_b32_chunk_val(chunk.take(j as int)) == Some(value));
            }
        }
        proof {
            assert(chunk.take(chunk_len as int) =~= chunk);
        }

        let ghost pre = ret@;
        if chunk_len == 2 {
            ret.push(low_byte(value >> 2));
        } else if chunk_len == 4 {
            ret.push(low_byte(value >> 12));
            ret.push(low_byte(value >> 4));
        } else if chunk_len == 5 {
            ret.push(low_byte(value >> 17));
            ret.push(low_byte(value >> 9));
            ret.push(low_byte(value >> 1));
        } else if chunk_len == 7 {
            ret.push(low_byte(value >> 27));
            ret.push(low_byte(value >> 19));
            ret.push(low_byte(value >> 11));
            ret.push(low_byte(value >> 3));
        } else if chunk_len == 8 {
            ret.push(low_byte(value >> 32));
            ret.push(low_byte(value >> 24));
            ret.push(low_byte(value >> 16));
            ret.push(low_byte(value >> 8));
            ret.push(low_byte(value));
        } else {
            proof {
                assert(spec_b32_chunk_bytes(chunk) is None);
                assert(suffix.len() > 0);
                assert(chunk_len as int == (if suffix.len() < 8 {
                    suffix.len() as int
                } else {
                    8
                }));
                assert(spec_decode_b32(bytes@.skip(i as int)) is None);
            }
            return None;
        }
        i += chunk_len;
        proof {
            assert(suffix.len() > 0);
            assert(chunk_len as int == (if suffix.len() < 8 {
                suffix.len() as int
            } else {
                8
            }));
            assert(suffix.skip(chunk_len as int) =~= bytes@.skip(i as int));
            assert(ret@ =~= pre + spec_b32_chunk_bytes(chunk)->Some_0);
            match spec_decode_b32(bytes@.skip(i as int)) {
                Some(rest) => {
                    assert(spec_decode_b32(suffix) == Some(
                        spec_b32_chunk_bytes(chunk)->Some_0 + rest,
                    ));
                    assert(pre + (spec_b32_chunk_bytes(chunk)->Some_0 + rest) =~= ret@ + rest);
                },
                None => {},
            }
        }
    }
    proof {
        assert(bytes@.skip(bytes@.len() as int) =~= Seq::<u8>::empty());
        assert(ret@ + Seq::<u8>::empty() =~= ret@);
    }
    Some(ret)
}

/// The serialization of a counter: eight bytes, big endian.
pub open spec fn spec_u64_be_bytes(n: u64) -> Seq<u8> {
    seq![
        spec_low_byte(n >> 56),
        spec_low_byte(n >> 48),
        spec_low_byte(n >> 40),
        spec_low_byte(n >> 32),
        spec_low_byte(n >> 24),
        spec_low_byte(n >> 16),
        spec_low_byte(n >> 8),
        spec_low_byte(n),
    ]
}

/// Serializes a counter as eight big-endian bytes.
fn u64_be_bytes(n: u64) -> (r: Vec<u8>)
    ensures
        r@ == spec_u64_be_bytes(n),
{
    let mut v: Vec<u8> = Vec::new();
    v.push(low_byte(n >> 56));
    v.push(low_byte(n >> 48));
    v.push(low_byte(n >> 40));
    v.push(low_byte(n >> 32));
    v.push(low_byte(n >> 24));
    v.push(low_byte(n >> 16));
    v.push(low_byte(n >> 8));
    v.push(low_byte(n));
    proof {
        assert(v@ =~= spec_u64_be_bytes(n));
    }
    v
}

/// The modulus a digit count selects: six, seven or eight decimal digits.
pub open spec fn spec_decimal_modulus(digits: u8) -> u32 {
    if digits == 6 {
        1_000_000
    } else if digits == 7 {
        10_000_000
    } else {
        100_000_000
    }
}

/// The dynamic truncation of an authentication code: the low four bits of
/// the last byte select a four-byte window, read big endian, the sign bit
/// stripped, reduced to the requested number of decimal digits.
pub open spec fn spec_dynamic_truncation(h: Seq<u8>, digits: u8) -> u32
    recommends
        h.len() >= 20,
{
    let offset = (h.last() & 0xF) as int;
    let raw = ((h[offset] as u32) << 24) | ((h[offset + 1] as u32) << 16) | ((h[offset
        + 2] as u32) << 8) | (h[offset + 3] as u32);
    let truncated = raw & 0x7FFF_FFFF;
    truncated % spec_decimal_modulus(digits)
}

/// Extracts a one-time code from an authentication code by dynamic
/// truncation.
pub fn dynamic_truncation(hmac: &[u8], digits: u8) -> (r: u32)
    requires
        hmac@.len() >= 20,
        6 <= digits <= 8,
    ensures
        r == spec_dynamic_truncation(hmac@, digits),
        r < spec_decimal_modulus(digits),
{
    let last = hmac[hmac.len() - 1];
    let offset: usize = (last & 0xF) as usize;
    proof {
        assert(last & 0xF < 16) by (bit_vector);
    }
    let raw: u32 = ((hmac[offset] as u32) << 24u32) | ((hmac[offset + 1] as u32) << 16u32) | ((
    hmac[offset + 2] as u32) << 8u32) | (hmac[offset + 3] as u32);
    let truncated = raw & 0x7FFF_FFFF;
    if digits == 6 {
        truncated % 1_000_000
    } else if digits == 7 {
        truncated % 10_000_000
    } else {
        truncated % 100_000_000
    }
}

/// The HMAC-based one-time code of a counter value.
pub open spec fn spec_hotp(alg: Algorithm, key: Seq<u8>, counter: u64, digits: u8) -> u32 {
    spec_dynamic_truncation(spec_hmac(alg, key, spec_u64_be_bytes(counter)), digits)
}

/// Computes the HMAC-based one-time code of a counter value.
pub fn hotp(hmac_algorithm: Algorithm, shared_secret: &[u8], counter: u64, digits: u8) -> (r: u32)
    requires
        6 <= digits <= 8,
    ensures
        r == spec_hotp(hmac_algorithm, shared_secret@, counter, digits),
        r < spec_decimal_modulus(digits),
{
    let counter_be_bytes = u64_be_bytes(counter);
    let hmac = hmac_algorithm.hmac(shared_secret, counter_be_bytes.as_slice());
    dynamic_truncation(hmac.as_slice(), digits)
}

/// Computes the time-based one-time code: the counter is the number of
/// whole periods since the epoch.
pub fn totp(
    hmac_algorithm: Algorithm,
    shared_secret: &[u8],
    unix_time: u64,
    period_s: u64,
    digits: u8,
) -> (r: u32)
    requires
        period_s > 0,
        6 <= digits <= 8,
    ensures
        r == spec_hotp(hmac_algorithm, shared_secret@, unix_time / period_s, digits),
        r < spec_decimal_modulus(digits),
{
    let counter = unix_time / period_s;
    hotp(hmac_algorithm, shared_secret, counter, digits)
}

/// Relies on std's `SystemTime::now`: seconds since the epoch, or zero on
/// a clock set before it.  The result depends on the clock, so nothing can
/// be promised of it.
#[verifier::external_body]
fn unix_time_now_seconds() -> u64 {
    std::time::SystemTime::now().duration_since(std::time::SystemTime::UNIX_EPOCH).map(|d|
        d.as_secs(),
    ).unwrap_or(0)
}

/// Computes the time-based one-time code for the present moment.
pub fn totp_now(hmac_algorithm: Algorithm, shared_secret: &[u8], period_s: u64, digits: u8) -> (r:
    u32)
    requires
        period_s > 0,
        6 <= digits <= 8,
    ensures
        r < spec_decimal_modulus(digits),
{
    let unix_time = unix_time_now_seconds();
    totp(hmac_algorithm, shared_secret, unix_time, period_s, digits)
}


/// Compares two byte runs by value.
fn bytes_equal(a: &[u8], b: &[u8]) -> (r: bool)
    ensures
        r <==> a@ == b@,
{
    if a.len() != b.len() {
        proof {
            assert(a@.len() != b@.len());
        }
        return false;
    }
    let mut i: usize = 0;
    while i < a.len()
        invariant
            0 <= i <= a@.len(),
            a@.len() == b@.len(),
            forall|j: int| 0 <= j < i ==> a@[j] == b@[j],
        decreases a@.len() - i,
    {
        if a[i] != b[i] {
            return false;
        }
        i += 1;
    }
    proof {
        assert(a@ =~= b@);
    }
    true
}

/// The position of the first occurrence of a byte, if any.
pub open spec fn spec_find_byte(s: Seq<u8>, b: u8) -> Option<int>
    decreases s.len(),
{
    if s.len() == 0 {
        None
    } else if s[0] == b {
        Some(0)
    } else {
        match spec_find_byte(s.drop_first(), b) {
            Some(i) => Some(i + 1),
            None => None,
        }
    }
}

/// Finds the first occurrence of a byte.
fn find_byte(s: &[u8], b: u8) -> (r: Option<usize>)
    ensures
        match r {
            Some(i) => spec_find_byte(s@, b) == Some(i as int) && 0 <= i < s@.len() && s@[
                i as int
            ] == b && (forall|j: int| 0 <= j < i ==> s@[j] != b),
            None => spec_find_byte(s@, b) is None && (forall|j: int|
                0 <= j < s@.len() ==> s@[j] != b),
        },
{
    proof {
        assert(s@.skip(0) =~= s@);
    }
    let mut i: usize = 0;
    while i < s.len()
        invariant
            0 <= i <= s@.len(),
            forall|j: int| 0 <= j < i ==> s@[j] != b,
            spec_find_byte(s@, b) == (match spec_find_byte(s@.skip(i as int), b) {
                Some(k) => Some(k + i),
                None => None::<int>,
            }),
        decreases s@.len() - i,
    {
        proof {
            assert(s@.skip(i as int)[0] == s@[i as int]);
            assert(s@.skip(i as int).drop_first() =~= s@.skip(i + 1));
        }
        if s[i] == b {
            return Some(i);
        }
        i += 1;
    }
    proof {
        assert(s@.skip(s@.len() as int).len() == 0);
    }
    None
}


/// Everything a provisioning string can carry for one account.
#[derive(Clone, Debug, Eq, PartialEq)]
pub struct TotpParameters {
    /// The shared secret, base-32 decoded.
    pub key: Vec<u8>,
    /// The issuer named in the label, if any.
    pub url_issuer: Option<String>,
    /// The account name in the label, if any.
    pub username: Option<String>,
    /// The issuer named as a property, if any.
    pub attrib_issuer: Option<String>,
    /// The algorithm name, if given.
    pub algorithm: Option<String>,
    /// The code length, if given: between six and eight digits.
    pub digits: Option<u8>,
    /// The period in seconds, if given: never zero.
    pub period_seconds: Option<u64>,
}

/// What provisioning parameters hold, as mathematical values.
pub ghost struct TotpParametersView {
    /// The decoded shared secret.
    pub key: Seq<u8>,
    /// The issuer named in the label, if any.
    pub url_issuer: Option<Seq<char>>,
    /// The account name in the label, if any.
    pub username: Option<Seq<char>>,
    /// The issuer named as a property, if any.
    pub attrib_issuer: Option<Seq<char>>,
    /// The algorithm name, if given.
    pub algorithm: Option<Seq<char>>,
    /// The code length, if given.
    pub digits: Option<u8>,
    /// The period in seconds, if given.
    pub period_seconds: Option<u64>,
}

impl View for TotpParameters {
    type V = TotpParametersView;

    open spec fn view(&self) -> TotpParametersView {
        TotpParametersView {
            key: self.key@,
            url_issuer: crate::model::spec_opt_str(self.url_issuer),
            username: crate::model::spec_opt_str(self.username),
            attrib_issuer: crate::model::spec_opt_str(self.attrib_issuer),
            algorithm: crate::model::spec_opt_str(self.algorithm),
            digits: self.digits,
            period_seconds: self.period_seconds,
        }
    }
}

/// The account properties accumulated while walking a provisioning
/// string's query part.
pub ghost struct OtpauthProps {
    /// The undecoded secret, if seen.
    pub secret: Option<Seq<char>>,
    /// The issuer property, if seen.
    pub attrib_issuer: Option<Seq<char>>,
    /// The algorithm property, if seen.
    pub algorithm: Option<Seq<char>>,
    /// The digits property, if seen.
    pub digits: Option<u8>,
    /// The period property, if seen.
    pub period_seconds: Option<u64>,
}

/// The empty accumulation.
pub open spec fn spec_otpauth_props_empty() -> OtpauthProps {
    OtpauthProps {
        secret: None,
        attrib_issuer: None,
        algorithm: None,
        digits: None,
        period_seconds: None,
    }
}

/// A found byte's position lies inside the run.
pub proof fn lemma_find_byte_in_range(s: Seq<u8>, b: u8)
    ensures
        spec_find_byte(s, b) matches Some(i) ==> 0 <= i < s.len(),
    decreases s.len(),
{
    if s.len() > 0 && s[0] != b {
        lemma_find_byte_in_range(s.drop_first(), b);
    }
}

/// The query part split at ampersands, separators consumed.
pub open spec fn spec_split_amp(s: Seq<u8>) -> Seq<Seq<u8>>
    decreases s.len(),
    via spec_split_amp_decreases
{
    match spec_find_byte(s, 38) {
        None => seq![s],
        Some(i) => seq![s.take(i)] + spec_split_amp(s.skip(i + 1)),
    }
}

#[via_fn]
proof fn spec_split_amp_decreases(s: Seq<u8>) {
    lemma_find_byte_in_range(s, 38);
}

/// What one `key=value` property does to the accumulation.  A property
/// without an equals sign, or whose decoded key or value is not text, is
/// skipped; a digits value outside six to eight, a zero period, and any
/// unparsable number poison the whole string.
pub open spec fn spec_apply_param(acc: OtpauthProps, seg: Seq<u8>) -> Option<OtpauthProps> {
    match spec_find_byte(seg, 61) {
        None => Some(acc),
        Some(i) => {
            let key_bytes = spec_urldecode(seg.take(i), true);
            let value_bytes = spec_urldecode(seg.skip(i + 1), true);
            if !vstd::utf8::valid_utf8(key_bytes) {
                Some(acc)
            } else if !vstd::utf8::valid_utf8(value_bytes) {
                Some(acc)
            } else {
                let key = vstd::utf8::decode_utf8(key_bytes);
                let value = vstd::utf8::decode_utf8(value_bytes);
                if key == "secret"@ {
                    Some(OtpauthProps { secret: Some(value), ..acc })
                } else if key == "issuer"@ {
                    Some(OtpauthProps { attrib_issuer: Some(value), ..acc })
                } else if key == "algorithm"@ {
                    Some(OtpauthProps { algorithm: Some(value), ..acc })
                } else if key == "digits"@ {
                    match crate::parser::spec_parse_u32_radix(value_bytes, 10) {
                        Some(d) => if 6 <= d <= 8 {
                            Some(OtpauthProps { digits: Some(d as u8), ..acc })
                        } else {
                            None
                        },
                        None => None,
                    }
                } else if key == "period"@ {
                    match crate::parser::spec_parse_radix(value_bytes, 10) {
                        Some(p) => if 1 <= p <= u64::MAX {
                            Some(OtpauthProps { period_seconds: Some(p as u64), ..acc })
                        } else {
                            None
                        },
                        None => None,
                    }
                } else {
                    Some(acc)
                }
            }
        },
    }
}

/// The whole query part folded into the accumulation, first property
/// first.
pub open spec fn spec_apply_params(acc: OtpauthProps, segs: Seq<Seq<u8>>) -> Option<OtpauthProps>
    decreases segs.len(),
{
    if segs.len() == 0 {
        Some(acc)
    } else {
        match spec_apply_param(acc, segs.first()) {
            None => None,
            Some(acc2) => spec_apply_params(acc2, segs.drop_first()),
        }
    }
}

/// An optional label part: decoded to text when it is non-empty and its
/// decoding is text, absent otherwise.
pub open spec fn spec_label_part(part: Seq<u8>) -> Option<Seq<char>> {
    if part.len() == 0 {
        None
    } else {
        let decoded = spec_urldecode(part, false);
        if vstd::utf8::valid_utf8(decoded) {
            Some(vstd::utf8::decode_utf8(decoded))
        } else {
            None
        }
    }
}

/// What a provisioning string denotes, if anything: it must carry the
/// one-time-password scheme and type prefix, a base-32 secret, digits
/// between six and eight if named, and a non-zero period if named.
pub open spec fn spec_parse_otpauth(u: Seq<u8>) -> Option<TotpParametersView> {
    let pfx = vstd::utf8::encode_utf8("otpauth://totp/"@);
    if u.len() < pfx.len() || u.take(pfx.len() as int) != pfx {
        None
    } else {
        let rest = u.skip(pfx.len() as int);
        let iu = match spec_find_byte(rest, 63) {
            Some(q) => rest.take(q),
            None => rest,
        };
        let params = match spec_find_byte(rest, 63) {
            Some(q) => rest.skip(q + 1),
            None => Seq::empty(),
        };
        let url_issuer_part = match spec_find_byte(iu, 58) {
            Some(c) => iu.take(c),
            None => iu,
        };
        let username_part = match spec_find_byte(iu, 58) {
            Some(c) => iu.skip(c + 1),
            None => Seq::empty(),
        };
        match spec_apply_params(spec_otpauth_props_empty(), spec_split_amp(params)) {
            None => None,
            Some(props) => match props.secret {
                None => None,
                Some(secret) => match spec_decode_b32(vstd::utf8::encode_utf8(secret)) {
                    None => None,
                    Some(key) => Some(
                        TotpParametersView {
                            key,
                            url_issuer: spec_label_part(url_issuer_part),
                            username: spec_label_part(username_part),
                            attrib_issuer: props.attrib_issuer,
                            algorithm: props.algorithm,
                            digits: props.digits,
                            period_seconds: props.period_seconds,
                        },
                    ),
                },
            },
        }
    }
}


/// Parses a run of decimal digits into a 64-bit number.
fn parse_u64_dec(digits: &[u8]) -> (r: Option<u64>)
    ensures
        ({
            let parsed = crate::parser::spec_parse_radix(digits@, 10);
            match r {
                Some(v) => parsed == Some(v as int),
                None => parsed is None || (parsed matches Some(p) && p > u64::MAX),
            }
        }),
{
    if digits.len() == 0 {
        return None;
    }
    let mut acc: u64 = 0;
    let mut over: bool = false;
    let mut i: usize = 0;
    while i < digits.len()
        invariant
            0 < digits@.len(),
            0 <= i <= digits@.len(),
            i > 0 ==> ({
                let sofar = crate::parser::spec_parse_radix(digits@.take(i as int), 10);
                &&& sofar is Some
                &&& (!over ==> sofar == Some(acc as int))
                &&& (over ==> sofar->Some_0 > u64::MAX)
            }),
            i == 0 ==> acc == 0 && !over,
        decreases digits@.len() - i,
    {
        let b = digits[i];
        if b < 48 || b > 57 {
            proof {
                if i > 0 {
                    assert(digits@.take(i + 1).drop_last() =~= digits@.take(i as int));
                    assert(digits@.take(i + 1).last() == digits@[i as int]);
                    crate::parser::lemma_radix_none_sticks(digits@, 10, i + 1);
                } else {
                    assert(digits@.take(1).len() == 1);
                    assert(digits@.take(1)[0] == digits@[0]);
                    crate::parser::lemma_radix_none_sticks(digits@, 10, 1);
                }
            }
            return None;
        }
        let d: u64 = (b - 48) as u64;
        proof {
            assert(digits@.take(i + 1).drop_last() =~= digits@.take(i as int));
            assert(digits@.take(i + 1).last() == digits@[i as int]);
        }
        if over {
            proof {
                let v = crate::parser::spec_parse_radix(digits@.take(i as int), 10)->Some_0;
                assert(v * 10 + d > u64::MAX) by (nonlinear_arith)
                    requires
                        v > u64::MAX,
                        d >= 0,
                ;
            }
        } else {
            if acc > (u64::MAX - d) / 10 {
                over = true;
                proof {
                    let v = acc as int;
                    assert(v * 10 + d > u64::MAX) by (nonlinear_arith)
                        requires
                            v > ((u64::MAX - d) as int) / 10,
                            0 <= d <= 9,
                            v >= 0,
                    ;
                }
            } else {
                proof {
                    let v = acc as int;
                    assert(v * 10 + d <= u64::MAX) by (nonlinear_arith)
                        requires
                            v <= ((u64::MAX - d) as int) / 10,
                            0 <= d <= 9,
                            v >= 0,
                    ;
                }
                acc = acc * 10 + d;
            }
        }
        i += 1;
    }
    proof {
        assert(digits@.take(digits@.len() as int) =~= digits@);
    }
    if over {
        None
    } else {
        Some(acc)
    }
}

impl TotpParameters {
    /// Parses the provisioning string an authenticator is set up from.
    ///
    /// Success requires the one-time-password scheme and type prefix and a
    /// base-32 secret; digits outside six to eight, a zero period and
    /// unparsable numbers are refused.
    pub fn try_from_otpauth_url(url: &str) -> (r: Option<TotpParameters>)
        ensures
            match r {
                Some(p) => spec_parse_otpauth(url.spec_bytes()) == Some(p@),
                None => spec_parse_otpauth(url.spec_bytes()) is None,
            },
    {
        let u = url.as_bytes();
        let pfx = "otpauth://totp/".as_bytes();
        if u.len() < pfx.len() {
            return None;
        }
        let head = vstd::slice::slice_subrange(u, 0, pfx.len());
        proof {
            assert(head@ =~= u@.take(pfx@.len() as int));
        }
        if !bytes_equal(head, pfx) {
            return None;
        }
        let rest = vstd::slice::slice_subrange(u, pfx.len(), u.len());
        proof {
            assert(rest@ =~= u@.skip(pfx@.len() as int));
        }

        let (iu, params): (&[u8], &[u8]) = match find_byte(rest, 63) {
            Some(q) => (
                vstd::slice::slice_subrange(rest, 0, q),
                vstd::slice::slice_subrange(rest, q + 1, rest.len()),
            ),
            None => (rest, vstd::slice::slice_subrange(rest, rest.len(), rest.len())),
        };
        proof {
            match spec_find_byte(rest@, 63) {
                Some(q) => {
                    assert(iu@ =~= rest@.take(q));
                    assert(params@ =~= rest@.skip(q + 1));
                },
                None => {
                    assert(params@ =~= Seq::<u8>::empty());
                },
            }
        }
        let (url_issuer_part, username_part): (&[u8], &[u8]) = match find_byte(iu, 58) {
            Some(c) => (
                vstd::slice::slice_subrange(iu, 0, c),
                vstd::slice::slice_subrange(iu, c + 1, iu.len()),
            ),
            None => (iu, vstd::slice::slice_subrange(iu, iu.len(), iu.len())),
        };
        proof {
            match spec_find_byte(iu@, 58) {
                Some(c) => {
                    assert(url_issuer_part@ =~= iu@.take(c));
                    assert(username_part@ =~= iu@.skip(c + 1));
                },
                None => {
                    assert(username_part@ =~= Seq::<u8>::empty());
                },
            }
        }

        let mut secret: Option<String> = None;
        let mut attrib_issuer: Option<String> = None;
        let mut algorithm: Option<String> = None;
        let mut digits: Option<u8> = None;
        let mut period_seconds: Option<u64> = None;
        let mut remaining: &[u8] = params;
        let mut finished = false;
        let mut poisoned = false;

        proof {
            assert(spec_split_amp(remaining@) == spec_split_amp(params@));
        }
        while !finished
            invariant
                !finished ==> spec_apply_params(
                    spec_otpauth_props_empty(),
                    spec_split_amp(params@),
                ) == spec_apply_params(
                    OtpauthProps {
                        secret: crate::model::spec_opt_str(secret),
                        attrib_issuer: crate::model::spec_opt_str(attrib_issuer),
                        algorithm: crate::model::spec_opt_str(algorithm),
                        digits: digits,
                        period_seconds: period_seconds,
                    },
                    spec_split_amp(remaining@),
                ),
                !finished ==> !poisoned,
                finished && poisoned ==> spec_apply_params(
                    spec_otpauth_props_empty(),
                    spec_split_amp(params@),
                ) is None,
                finished && !poisoned ==> spec_apply_params(
                    spec_otpauth_props_empty(),
                    spec_split_amp(params@),
                ) == Some(
                    OtpauthProps {
                        secret: crate::model::spec_opt_str(secret),
                        attrib_issuer: crate::model::spec_opt_str(attrib_issuer),
                        algorithm: crate::model::spec_opt_str(algorithm),
                        digits: digits,
                        period_seconds: period_seconds,
                    },
                ),
            decreases remaining@.len() + (if finished {
                0int
            } else {
                1int
            }),
        {
            let ghost acc0 = OtpauthProps {
                secret: crate::model::spec_opt_str(secret),
                attrib_issuer: crate::model::spec_opt_str(attrib_issuer),
                algorithm: crate::model::spec_opt_str(algorithm),
                digits: digits,
                period_seconds: period_seconds,
            };
            let rl = remaining.len();
            let (seg, rest2, last): (&[u8], &[u8], bool) = match find_byte(remaining, 38) {
                Some(k) => (
                    vstd::slice::slice_subrange(remaining, 0, k),
                    vstd::slice::slice_subrange(remaining, k + 1, rl),
                    false,
                ),
                None => (remaining, vstd::slice::slice_subrange(remaining, 0, 0), true),
            };
            proof {
                match spec_find_byte(remaining@, 38) {
                    Some(k) => {
                        assert(seg@ =~= remaining@.take(k));
                        assert(rest2@ =~= remaining@.skip(k + 1));
                        assert(spec_split_amp(remaining@) == seq![seg@] + spec_split_amp(rest2@));
                        assert((seq![seg@] + spec_split_amp(rest2@)).first() == seg@);
                        assert((seq![seg@] + spec_split_amp(rest2@)).drop_first()
                            =~= spec_split_amp(rest2@));
                    },
                    None => {
                        assert(spec_split_amp(remaining@) == seq![remaining@]);
                        assert(seq![remaining@].first() == remaining@);
                        assert(seq![remaining@].drop_first() =~= Seq::<Seq<u8>>::empty());
                    },
                }
            }

            // one property: key=value, both URL decoded
            match find_byte(seg, 61) {
                None => {},
                Some(e) => {
                    let sl = seg.len();
                    let key_bytes = urldecode(vstd::slice::slice_subrange(seg, 0, e), true);
                    let value_bytes = urldecode(
                        vstd::slice::slice_subrange(seg, e + 1, sl),
                        true,
                    );
                    proof {
                        assert(seg@.subrange(0, e as int) =~= seg@.take(e as int));
                        assert(seg@.subrange(e + 1, seg@.len() as int) =~= seg@.skip(e + 1));
                        assert(key_bytes@ == spec_urldecode(seg@.take(e as int), true));
                        assert(value_bytes@ == spec_urldecode(seg@.skip(e + 1), true));
                    }
                    match crate::packet::bytes_to_string(key_bytes.as_slice()) {
                        None => {},
                        Some(key) => {
                            match crate::packet::bytes_to_string(value_bytes.as_slice()) {
                                None => {},
                                Some(value) => {
                                    if crate::document::str_equal(key.as_str(), "secret") {
                                        secret = Some(value);
                                    } else if crate::document::str_equal(key.as_str(), "issuer") {
                                        attrib_issuer = Some(value);
                                    } else if crate::document::str_equal(
                                        key.as_str(),
                                        "algorithm",
                                    ) {
                                        algorithm = Some(value);
                                    } else if crate::document::str_equal(key.as_str(), "digits") {
                                        match crate::parser::parse_u32_radix(
                                            value_bytes.as_slice(),
                                            10,
                                        ) {
                                            Some(d) if d >= 6 && d <= 8 => {
                                                digits = Some(d as u8);
                                            },
                                            _ => {
                                                poisoned = true;
                                            },
                                        }
                                    } else if crate::document::str_equal(key.as_str(), "period") {
                                        match parse_u64_dec(value_bytes.as_slice()) {
                                            Some(p) if p >= 1 => {
                                                period_seconds = Some(p);
                                            },
                                            _ => {
                                                poisoned = true;
                                            },
                                        }
                                    }
                                },
                            }
                        },
                    }
                },
            }

            let ghost acc1 = OtpauthProps {
                secret: crate::model::spec_opt_str(secret),
                attrib_issuer: crate::model::spec_opt_str(attrib_issuer),
                algorithm: crate::model::spec_opt_str(algorithm),
                digits: digits,
                period_seconds: period_seconds,
            };
            if poisoned {
                finished = true;
                proof {
                    assert(spec_apply_param(acc0, seg@) is None);
                    assert(spec_apply_params(acc0, spec_split_amp(remaining@)) is None);
                }
            } else {
                proof {
                    assert(spec_apply_param(acc0, seg@) == Some(acc1));
                }
                if last {
                    finished = true;
                    proof {
                        assert(spec_split_amp(remaining@) == seq![remaining@]);
                        assert(spec_apply_params(acc0, spec_split_amp(remaining@))
                            == spec_apply_params(acc1, (seq![remaining@]).drop_first()));
                        assert((seq![remaining@]).drop_first().len() == 0);
                        assert(spec_apply_params(acc1, (seq![remaining@]).drop_first()) == Some(
                            acc1,
                        ));
                    }
                } else {
                    remaining = rest2;
                    proof {
                        assert(spec_apply_params(acc0, seq![seg@] + spec_split_amp(remaining@))
                            == spec_apply_params(acc1, spec_split_amp(remaining@)));
                    }
                }
            }
        }

        if poisoned {
            return None;
        }

        let actual_secret = match secret {
            Some(s) => s,
            None => {
                return None;
            },
        };
        let key = match decode_base32(actual_secret.as_str()) {
            Some(k) => k,
            None => {
                return None;
            },
        };

        let url_issuer: Option<String> = if url_issuer_part.len() > 0 {
            crate::packet::bytes_to_string(urldecode(url_issuer_part, false).as_slice())
        } else {
            None
        };
        let username: Option<String> = if username_part.len() > 0 {
            crate::packet::bytes_to_string(urldecode(username_part, false).as_slice())
        } else {
            None
        };

        Some(
            TotpParameters {
                key,
                url_issuer,
                username,
                attrib_issuer,
                algorithm,
                digits,
                period_seconds,
            },
        )
    }
}

} // verus!
