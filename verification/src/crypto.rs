//! The cryptographic functions behind encrypted values and keys.

use crate::text;
use vstd::arithmetic::power2;
use vstd::prelude::*;

verus! {

/// Whether two texts are equal, in time that does not depend on where they
/// differ.
///
/// `subtle::ConstantTimeEq` on the bytes of the texts.
#[verifier::external_body]
pub(crate) fn same_secret(a: &str, b: &str) -> (r: bool)
    ensures
        r == (a@ == b@),
{
    subtle::ConstantTimeEq::ct_eq(a.as_bytes(), b.as_bytes()).into()
}

/// The six bits from bit `6 * i` on of a byte sequence with zeros behind it.
pub open spec fn sextet(bytes: Seq<u8>, i: int) -> int {
    let bit = 6 * i;
    let first = bytes[bit / 8] as int;
    let second = if bit / 8 + 1 < bytes.len() {
        bytes[bit / 8 + 1] as int
    } else {
        0
    };
    (first * 256 + second) / (power2::pow2((10 - bit % 8) as nat) as int) % 64
}

/// The character of six bits.
pub open spec fn base64_char(n: int) -> char {
    if n < 26 {
        (65 + n) as char
    } else if n < 52 {
        (71 + n) as char
    } else if n < 62 {
        (n - 4) as char
    } else if n == 62 {
        '+'
    } else {
        '/'
    }
}

/// The standard base64 text of bytes, without padding.
pub open spec fn base64_text(bytes: Seq<u8>) -> Seq<char> {
    Seq::new(
        ((8 * bytes.len() + 5) / 6) as nat,
        |i: int| base64_char(sextet(bytes, i)),
    )
}

proof fn lemma_six_bits(a: u8, b: u8)
    ensures
        (a as int * 256 + b as int) / 1024 % 64 == a as int / 4,
        (a as int * 256 + b as int) / 16 % 64 == (a as int % 4) * 16 + b as int / 16,
        (a as int * 256 + b as int) / 64 % 64 == (a as int % 16) * 4 + b as int / 64,
        (a as int * 256 + b as int) / 256 % 64 == a as int % 64,
{
    let w: u32 = (a as u32 * 256 + b as u32) as u32;
    assert((a as u32 * 256 + b as u32) as u32 / 1024u32 % 64u32 == (a as u32) / 4u32)
        by (bit_vector);
    assert((a as u32 * 256 + b as u32) as u32 / 16u32 % 64u32 == ((a as u32) % 4u32) * 16 + (
    b as u32) / 16u32) by (bit_vector);
    assert((a as u32 * 256 + b as u32) as u32 / 64u32 % 64u32 == ((a as u32) % 16u32) * 4 + (
    b as u32) / 64u32) by (bit_vector);
    assert((a as u32 * 256 + b as u32) as u32 / 256u32 % 64u32 == (a as u32) % 64u32)
        by (bit_vector);
}

/// The byte after byte `j`, or zero.
spec fn next_byte(bytes: Seq<u8>, j: int) -> u8 {
    if j + 1 < bytes.len() {
        bytes[j + 1]
    } else {
        0
    }
}

proof fn lemma_sextet(bytes: Seq<u8>, i: int)
    requires
        0 <= i,
        6 * i < 8 * bytes.len(),
    ensures
        ({
            let a = bytes[6 * i / 8] as int;
            let b = next_byte(bytes, 6 * i / 8) as int;
            sextet(bytes, i) == (if i % 4 == 0 {
                a / 4
            } else if i % 4 == 1 {
                (a % 4) * 16 + b / 16
            } else if i % 4 == 2 {
                (a % 16) * 4 + b / 64
            } else {
                a % 64
            })
        }),
{
    assert(power2::pow2(10) == 1024 && power2::pow2(4) == 16 && power2::pow2(6) == 64
        && power2::pow2(8) == 256) by {
        power2::lemma2_to64();
    }
    let bit = 6 * i;
    lemma_six_bits(bytes[bit / 8], next_byte(bytes, bit / 8));
    if i % 4 == 0 {
        assert(bit % 8 == 0);
    } else if i % 4 == 1 {
        assert(bit % 8 == 6);
    } else if i % 4 == 2 {
        assert(bit % 8 == 4);
    } else {
        assert(bit % 8 == 2);
    }
}

proof fn lemma_byte_from_sextets(bytes: Seq<u8>, k: int)
    requires
        0 <= k < bytes.len(),
    ensures
        0 <= 8 * k / 6,
        8 * k / 6 + 1 < base64_text(bytes).len(),
        bytes[k] as int == (if k % 3 == 0 {
            sextet(bytes, 8 * k / 6) * 4 + sextet(bytes, 8 * k / 6 + 1) / 16
        } else if k % 3 == 1 {
            sextet(bytes, 8 * k / 6) % 16 * 16 + sextet(bytes, 8 * k / 6 + 1) / 4
        } else {
            sextet(bytes, 8 * k / 6) % 4 * 64 + sextet(bytes, 8 * k / 6 + 1)
        }),
{
    let i = 8 * k / 6;
    lemma_sextet(bytes, i);
    lemma_sextet(bytes, i + 1);
    if k % 3 == 0 {
        assert(i % 4 == 0 && 6 * i / 8 == k && 6 * (i + 1) / 8 == k);
    } else if k % 3 == 1 {
        assert(i % 4 == 1 && 6 * i / 8 == k - 1 && 6 * (i + 1) / 8 == k);
    } else {
        assert(i % 4 == 2 && 6 * i / 8 == k - 1 && 6 * (i + 1) / 8 == k);
    }
}

proof fn lemma_sextet_range(bytes: Seq<u8>, i: int)
    requires
        0 <= i,
    ensures
        0 <= sextet(bytes, i) < 64,
{
}

proof fn lemma_base64_char(m: int, n: int)
    requires
        0 <= m < 64,
        0 <= n < 64,
        base64_char(m) == base64_char(n),
    ensures
        m == n,
{
}

/// Different bytes have different base64 texts.
pub proof fn base64_is_injective(a: Seq<u8>, b: Seq<u8>)
    requires
        base64_text(a) == base64_text(b),
    ensures
        a == b,
{
    let n = base64_text(a).len() as int;
    assert(a.len() == b.len());
    assert forall|i: int| 0 <= i < n implies #[trigger] sextet(a, i) == sextet(b, i) by {
        assert(base64_text(a)[i] == base64_char(sextet(a, i)));
        assert(base64_text(b)[i] == base64_char(sextet(b, i)));
        lemma_sextet_range(a, i);
        lemma_sextet_range(b, i);
        lemma_base64_char(sextet(a, i), sextet(b, i));
    }
    assert forall|k: int| 0 <= k < a.len() implies a[k] == b[k] by {
        lemma_byte_from_sextets(a, k);
        lemma_byte_from_sextets(b, k);
        assert(sextet(a, 8 * k / 6) == sextet(b, 8 * k / 6));
        assert(sextet(a, 8 * k / 6 + 1) == sextet(b, 8 * k / 6 + 1));
    }
    assert(a =~= b);
}

/// The standard base64 text of bytes, without padding.
///
/// `base64`'s `STANDARD_NO_PAD` engine: one character for every six bits, the
/// last ones filled up with zeros.
#[verifier::external_body]
pub(crate) fn base64_encode(bytes: &Vec<u8>) -> (r: String)
    ensures
        r@ == base64_text(bytes@),
{
    base64::Engine::encode(&base64::engine::general_purpose::STANDARD_NO_PAD, bytes)
}

/// The message with which `base64`'s `STANDARD_NO_PAD` engine refuses a text.
pub uninterp spec fn base64_failure(text: Seq<char>) -> Seq<char>;

/// The bytes of a base64 text without padding, or the message with which it is
/// refused.
///
/// `base64`'s `STANDARD_NO_PAD` engine, which accepts exactly the texts that it
/// writes: no padding, and zeros in the bits that no byte uses. Of a refusal
/// only the message is named.
#[verifier::external_body]
pub(crate) fn base64_decode(text: &str) -> (r: Result<Vec<u8>, String>)
    ensures
        r matches Ok(bytes) ==> text@ == base64_text(bytes@),
        forall|bytes: Seq<u8>| text@ == #[trigger] base64_text(bytes) ==> r is Ok && r->Ok_0@ == bytes,
        r matches Err(message) ==> message@ == base64_failure(text@),
{
    base64::Engine::decode(&base64::engine::general_purpose::STANDARD_NO_PAD, text)
        .map_err(|error| error.to_string())
}

/// What XChaCha20-Poly1305 makes of a message: key, nonce, message, additional
/// data.
pub uninterp spec fn sealed(
    key: Seq<u8>,
    nonce: Seq<u8>,
    message: Seq<u8>,
    associated: Seq<u8>,
) -> Option<Seq<u8>>;

/// What XChaCha20-Poly1305 makes of a ciphertext: key, nonce, ciphertext,
/// additional data.
pub uninterp spec fn opened(
    key: Seq<u8>,
    nonce: Seq<u8>,
    ciphertext: Seq<u8>,
    associated: Seq<u8>,
) -> Option<Seq<u8>>;

/// The bytes of an option.
pub open spec fn optional_bytes(bytes: Option<Vec<u8>>) -> Option<Seq<u8>> {
    match bytes {
        Some(bytes) => Some(bytes@),
        None => None,
    }
}

/// Encrypts and authenticates a message.
///
/// `chacha20poly1305`'s `XChaCha20Poly1305`. The ciphertext is only named;
/// stated are that a message of less than `64 * u32::MAX` bytes is accepted, and
/// that decrypting with the same key, nonce and additional data gives the
/// message back.
#[verifier::external_body]
pub(crate) fn seal(key: &Vec<u8>, nonce: &Vec<u8>, message: &Vec<u8>, associated: &Vec<u8>) -> (r:
    Option<Vec<u8>>)
    requires
        key.len() == 32,
        nonce.len() == 24,
    ensures
        optional_bytes(r) == sealed(key@, nonce@, message@, associated@),
        message.len() / 64 < u32::MAX ==> r is Some,
        r matches Some(ciphertext) ==> opened(key@, nonce@, ciphertext@, associated@) == Some(
            message@,
        ),
{
    let cipher: chacha20poly1305::XChaCha20Poly1305 =
        chacha20poly1305::KeyInit::new_from_slice(key).ok()?;
    let payload = chacha20poly1305::aead::Payload { msg: message, aad: associated };
    let nonce = chacha20poly1305::XNonce::from_slice(nonce);
    chacha20poly1305::aead::Aead::encrypt(&cipher, nonce, payload).ok()
}

/// Decrypts a ciphertext if it is authentic.
///
/// `chacha20poly1305`'s `XChaCha20Poly1305`. What it makes of a ciphertext is
/// only named. That a ciphertext is refused with another key, another nonce or other
/// additional data than it was made with holds of all but a vanishing share of them,
/// and is not stated.
#[verifier::external_body]
pub(crate) fn open(
    key: &Vec<u8>,
    nonce: &Vec<u8>,
    ciphertext: &Vec<u8>,
    associated: &Vec<u8>,
) -> (r: Option<Vec<u8>>)
    requires
        key.len() == 32,
        nonce.len() == 24,
    ensures
        optional_bytes(r) == opened(key@, nonce@, ciphertext@, associated@),
{
    let cipher: chacha20poly1305::XChaCha20Poly1305 =
        chacha20poly1305::KeyInit::new_from_slice(key).ok()?;
    let payload = chacha20poly1305::aead::Payload { msg: ciphertext, aad: associated };
    let nonce = chacha20poly1305::XNonce::from_slice(nonce);
    chacha20poly1305::aead::Aead::decrypt(&cipher, nonce, payload).ok()
}

/// A nonce of 24 random bytes.
///
/// `chacha20poly1305`'s `generate_nonce` on the random source of the operating
/// system. Nothing but the length is known of the bytes.
#[verifier::external_body]
pub(crate) fn fresh_nonce() -> (r: Vec<u8>)
    ensures
        r.len() == 24,
{
    let mut source = chacha20poly1305::aead::OsRng;
    let nonce: chacha20poly1305::XNonce =
        <chacha20poly1305::XChaCha20Poly1305 as chacha20poly1305::AeadCore>::generate_nonce(
            &mut source,
        );
    nonce.to_vec()
}

/// A random identifier.
///
/// `uuid::Uuid::new_v4`. Nothing is known of the result.
#[verifier::external_body]
pub(crate) fn fresh_uuid() -> (r: u128) {
    uuid::Uuid::new_v4().as_u128()
}

/// The value of a hexadecimal digit.
pub open spec fn hex_value(c: char) -> Option<int> {
    if '0' <= c && c <= '9' {
        Some(c as int - 48)
    } else if 'a' <= c && c <= 'f' {
        Some(c as int - 87)
    } else if 'A' <= c && c <= 'F' {
        Some(c as int - 55)
    } else {
        None
    }
}

/// The byte that two characters write in hexadecimal; a plus sign may stand in
/// place of a first zero.
pub open spec fn hex_pair(a: char, b: char) -> Option<int> {
    match (hex_value(a), hex_value(b)) {
        (Some(high), Some(low)) => Some(16 * high + low),
        (None, Some(low)) => if a == '+' {
            Some(low)
        } else {
            None
        },
        _ => None,
    }
}

/// A text is made of pairs that write bytes.
pub open spec fn is_hex(s: Seq<char>) -> bool {
    s.len() % 2 == 0 && forall|i: int|
        0 <= i < s.len() / 2 ==> #[trigger] hex_pair(s[2 * i], s[2 * i + 1]) is Some
}

/// The bytes that a hexadecimal text writes.
pub open spec fn hex_bytes(s: Seq<char>) -> Seq<u8> {
    Seq::new((s.len() / 2) as nat, |i: int| hex_pair(s[2 * i], s[2 * i + 1])->0 as u8)
}

/// The value of a hexadecimal digit.
pub fn hex_digit_value(c: char) -> (r: Option<u8>)
    ensures
        match r {
            Some(n) => hex_value(c) == Some(n as int) && n < 16,
            None => hex_value(c) is None,
        },
{
    if '0' <= c && c <= '9' {
        Some((c as u32 - 48) as u8)
    } else if 'a' <= c && c <= 'f' {
        Some((c as u32 - 87) as u8)
    } else if 'A' <= c && c <= 'F' {
        Some((c as u32 - 55) as u8)
    } else {
        None
    }
}

/// The bytes that a hexadecimal text writes, if it is one.
pub fn hex_decode(value: &str) -> (r: Option<Vec<u8>>)
    ensures
        match r {
            Some(bytes) => is_hex(value@) && bytes@ == hex_bytes(value@),
            None => !is_hex(value@),
        },
{
    let chars = text::chars_of(value);
    if chars.len() % 2 != 0 {
        return None;
    }
    let mut out: Vec<u8> = Vec::new();
    let mut i: usize = 0;
    while i < chars.len()
        invariant
            i <= chars.len(),
            i % 2 == 0,
            chars.len() % 2 == 0,
            chars@ == value@,
            out.len() == i / 2,
            forall|k: int|
                0 <= k < i / 2 ==> #[trigger] hex_pair(chars@[2 * k], chars@[2 * k + 1]) == Some(
                    out@[k] as int,
                ),
        decreases chars.len() - i,
    {
        let ghost k = i as int / 2;
        assert(i == 2 * k);
        let a = chars[i];
        let byte: u8 = match (hex_digit_value(a), hex_digit_value(chars[i + 1])) {
            (Some(high), Some(low)) => 16 * high + low,
            (None, Some(low)) => {
                if a != '+' {
                    assert(hex_pair(chars@[2 * k], chars@[2 * k + 1]) is None);
                    return None;
                }
                low
            },
            _ => {
                assert(hex_pair(chars@[2 * k], chars@[2 * k + 1]) is None);
                return None;
            },
        };
        out.push(byte);
        i += 2;
    }
    assert(out@ =~= hex_bytes(value@));
    Some(out)
}

/// The SHA-256 digest of bytes, as `sha2` computes it.
pub uninterp spec fn sha256(bytes: Seq<u8>) -> Seq<u8>;

/// Calls `Sha256::digest` of `sha2`. The contract claims that the digest depends on
/// the bytes alone and is 32 bytes long.
#[verifier::external_body]
pub(crate) fn digest(bytes: &Vec<u8>) -> (r: Vec<u8>)
    ensures
        r@ == sha256(bytes@),
        r.len() == 32,
{
    <sha2::Sha256 as sha2::Digest>::digest(bytes.as_slice()).to_vec()
}

/// A hexadecimal digit, with small letters.
pub open spec fn small_hex(n: int) -> char {
    if n < 10 {
        (48 + n) as char
    } else {
        (87 + n) as char
    }
}

/// The hexadecimal text of bytes.
pub open spec fn hex_text(bytes: Seq<u8>) -> Seq<char> {
    Seq::new(
        2 * bytes.len(),
        |i: int|
            small_hex(
                if i % 2 == 0 {
                    bytes[i / 2] as int / 16
                } else {
                    bytes[i / 2] as int % 16
                },
            ),
    )
}

fn small_hex_digit(n: u8) -> (r: char)
    requires
        n < 16,
    ensures
        r == small_hex(n as int),
{
    if n < 10 {
        (48 + n) as char
    } else {
        (87 + n) as char
    }
}

/// The hexadecimal text of bytes.
pub fn hex_encode(bytes: &Vec<u8>) -> (r: String)
    ensures
        r@ == hex_text(bytes@),
{
    let mut out = String::new();
    let mut i: usize = 0;
    while i < bytes.len()
        invariant
            i <= bytes.len(),
            out@ == hex_text(bytes@).take(2 * i as int),
        decreases bytes.len() - i,
    {
        let ghost before = out@;
        let b: u8 = bytes[i];
        out.push(small_hex_digit(b / 16));
        out.push(small_hex_digit(b % 16));
        proof {
            let all = hex_text(bytes@);
            let k = 2 * i as int;
            assert(k / 2 == i && (k + 1) / 2 == i && k % 2 == 0 && (k + 1) % 2 == 1);
            assert(all[k] == small_hex(b as int / 16));
            assert(all[k + 1] == small_hex(b as int % 16));
            assert(out@ =~= all.take(k + 2));
        }
        i += 1;
    }
    assert(hex_text(bytes@).take(2 * bytes@.len() as int) =~= hex_text(bytes@));
    out
}

} // verus!
