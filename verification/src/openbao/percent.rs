//! Percent encoding of path segments.

use crate::openbao::error::{configuration, AdapterError, AdapterErrorView};
use crate::text;
use vstd::prelude::*;

verus! {

/// A byte that stands for itself.
pub open spec fn is_plain(b: u8) -> bool {
    ||| 65 <= b <= 90
    ||| 97 <= b <= 122
    ||| 48 <= b <= 57
    ||| b == 45
    ||| b == 46
    ||| b == 95
    ||| b == 126
}

/// A hexadecimal digit, with capital letters.
pub open spec fn hex_char(n: int) -> char {
    if n < 10 {
        (48 + n) as char
    } else {
        (55 + n) as char
    }
}

/// How a byte is written.
pub open spec fn escaped_byte(b: u8) -> Seq<char> {
    if is_plain(b) {
        seq![b as char]
    } else {
        seq!['%', hex_char(b as int / 16), hex_char(b as int % 16)]
    }
}

/// How bytes are written.
pub open spec fn escaped(bytes: Seq<u8>) -> Seq<char>
    decreases bytes.len(),
{
    if bytes.len() == 0 {
        Seq::empty()
    } else {
        escaped_byte(bytes[0]) + escaped(bytes.skip(1))
    }
}

/// How a text is written as one segment of a path: one that would name a directory
/// is written otherwise.
pub open spec fn segment(value: Seq<char>) -> Seq<char> {
    if value == "."@ {
        "%2E"@
    } else if value == ".."@ {
        "%2E%2E"@
    } else {
        escaped(vstd::utf8::encode_utf8(value))
    }
}

/// The value of a hexadecimal digit.
pub open spec fn digit_of(b: u8) -> Option<int> {
    if 48 <= b <= 57 {
        Some(b - 48)
    } else if 97 <= b <= 102 {
        Some(b - 87)
    } else if 65 <= b <= 70 {
        Some(b - 55)
    } else {
        None
    }
}

/// The bytes that are written, if every percent sign begins an escape.
pub open spec fn unescaped(bytes: Seq<u8>) -> Option<Seq<u8>>
    decreases bytes.len(),
{
    if bytes.len() == 0 {
        Some(Seq::empty())
    } else if bytes[0] != 37 {
        match unescaped(bytes.skip(1)) {
            Some(rest) => Some(seq![bytes[0]] + rest),
            None => None,
        }
    } else if bytes.len() < 3 || digit_of(bytes[1]) is None || digit_of(bytes[2]) is None {
        None
    } else {
        match unescaped(bytes.skip(3)) {
            Some(rest) => Some(
                seq![(16 * digit_of(bytes[1])->0 + digit_of(bytes[2])->0) as u8] + rest,
            ),
            None => None,
        }
    }
}

/// What a segment stands for.
pub open spec fn segment_value(value: Seq<char>) -> Result<Seq<char>, AdapterErrorView> {
    match unescaped(vstd::utf8::encode_utf8(value)) {
        None => Err(
            AdapterErrorView::Configuration(
                "OpenBao provider key had an invalid percent escape"@,
            ),
        ),
        Some(bytes) => if vstd::utf8::valid_utf8(bytes) {
            Ok(vstd::utf8::decode_utf8(bytes))
        } else {
            Err(
                AdapterErrorView::Configuration(
                    "OpenBao provider key was not UTF-8: "@ + text::utf8_failure(bytes),
                ),
            )
        },
    }
}

fn hex_digit(n: u8) -> (r: char)
    requires
        n < 16,
    ensures
        r == hex_char(n as int),
{
    if n < 10 {
        (48 + n) as char
    } else {
        (55 + n) as char
    }
}

/// Writes a text as one segment of a path.
pub fn encode(value: &str) -> (r: String)
    ensures
        r@ == segment(value@),
{
    if text::same(value, ".") {
        return "%2E".to_owned();
    }
    if text::same(value, "..") {
        return "%2E%2E".to_owned();
    }
    let bytes = text::bytes_of(value);
    let mut out = String::new();
    let mut i: usize = 0;
    assert(bytes@.skip(0) =~= bytes@);
    assert(out@ + escaped(bytes@) =~= escaped(bytes@));
    while i < bytes.len()
        invariant
            i <= bytes.len(),
            out@ + escaped(bytes@.skip(i as int)) == escaped(bytes@),
        decreases bytes.len() - i,
    {
        let ghost before = out@;
        let ghost rest = bytes@.skip(i as int);
        let b: u8 = bytes[i];
        proof {
            assert(rest[0] == b);
            assert(rest.skip(1) =~= bytes@.skip(i + 1));
        }
        if (65 <= b && b <= 90) || (97 <= b && b <= 122) || (48 <= b && b <= 57) || b == 45 || b
            == 46 || b == 95 || b == 126 {
            out.push(b as char);
            assert(out@ =~= before + escaped_byte(b));
        } else {
            out.push('%');
            out.push(hex_digit(b / 16));
            out.push(hex_digit(b % 16));
            assert(out@ =~= before + escaped_byte(b));
        }
        assert(out@ + escaped(rest.skip(1)) =~= before + (escaped_byte(b) + escaped(
            rest.skip(1),
        )));
        i += 1;
    }
    assert(escaped(bytes@.skip(i as int)) =~= Seq::<char>::empty());
    assert(out@ =~= escaped(bytes@));
    out
}

fn hex_value(b: u8) -> (r: Option<u8>)
    ensures
        match r {
            Some(n) => digit_of(b) == Some(n as int) && n < 16,
            None => digit_of(b) is None,
        },
{
    if 48 <= b && b <= 57 {
        Some(b - 48)
    } else if 97 <= b && b <= 102 {
        Some(b - 87)
    } else if 65 <= b && b <= 70 {
        Some(b - 55)
    } else {
        None
    }
}

fn unescape(bytes: &Vec<u8>) -> (r: Option<Vec<u8>>)
    ensures
        match r {
            Some(out) => unescaped(bytes@) == Some(out@),
            None => unescaped(bytes@) is None,
        },
{
    let mut out: Vec<u8> = Vec::new();
    let mut i: usize = 0;
    assert(bytes@.skip(0) =~= bytes@);
    assert forall|rest: Seq<u8>| #[trigger] (out@ + rest) == rest by {
        assert(out@ + rest =~= rest);
    }
    while i < bytes.len()
        invariant
            i <= bytes.len(),
            unescaped(bytes@) == (match unescaped(bytes@.skip(i as int)) {
                Some(rest) => Some(out@ + rest),
                None => None,
            }),
        decreases bytes.len() - i,
    {
        let ghost before = out@;
        let ghost left = bytes@.skip(i as int);
        if bytes[i] != 37 {
            out.push(bytes[i]);
            proof {
                assert(left.skip(1) =~= bytes@.skip(i + 1));
                if let Some(rest) = unescaped(left.skip(1)) {
                    assert(before + (seq![left[0]] + rest) =~= out@ + rest);
                }
            }
            i += 1;
        } else {
            if bytes.len() - i < 3 {
                return None;
            }
            match (hex_value(bytes[i + 1]), hex_value(bytes[i + 2])) {
                (Some(high), Some(low)) => {
                    out.push(16 * high + low);
                    proof {
                        assert(left.skip(3) =~= bytes@.skip(i + 3));
                        if let Some(rest) = unescaped(left.skip(3)) {
                            assert(before + (seq![(16 * high + low) as u8] + rest) =~= out@ + rest);
                        }
                    }
                    i += 3;
                },
                _ => {
                    return None;
                },
            }
        }
    }
    assert(unescaped(bytes@.skip(i as int)) == Some(Seq::<u8>::empty()));
    assert(out@ + Seq::<u8>::empty() =~= out@);
    Some(out)
}

/// Reads a segment of a path.
pub fn decode(value: &str) -> (r: Result<String, AdapterError>)
    ensures
        crate::openbao::error::bao_outcome(r) == segment_value(value@),
{
    let bytes = text::bytes_of(value);
    let decoded = match unescape(&bytes) {
        Some(decoded) => decoded,
        None => {
            return Err(configuration("OpenBao provider key had an invalid percent escape"));
        },
    };
    match text::from_bytes(decoded) {
        Err(message) => Err(
            AdapterError::Configuration(
                text::joined("OpenBao provider key was not UTF-8: ", message.as_str()),
            ),
        ),
        Ok(text) => {
            proof {
                vstd::utf8::encode_utf8_decode_utf8(text@);
            }
            Ok(text)
        },
    }
}

proof fn lemma_ascii_scalar(n: u32)
    requires
        n < 128,
    ensures
        vstd::utf8::encode_scalar(n) == seq![n as u8],
{
    assert(vstd::utf8::has_width_1_encoding(n));
    assert((n & 0x7F) as u8 == n as u8) by (bit_vector)
        requires
            n < 128,
    ;
}

proof fn lemma_encode_first(c: char, rest: Seq<char>)
    requires
        (c as u32) < 128,
    ensures
        vstd::utf8::encode_utf8(seq![c] + rest) == seq![c as u8] + vstd::utf8::encode_utf8(rest),
{
    let all = seq![c] + rest;
    assert(all[0] == c);
    assert(all.drop_first() =~= rest);
    lemma_ascii_scalar(c as u32);
}

proof fn lemma_digit_read_back(n: int)
    requires
        0 <= n < 16,
    ensures
        (hex_char(n) as u32) < 128,
        digit_of(hex_char(n) as u8) == Some(n),
{
}

proof fn lemma_unescape(bytes: Seq<u8>)
    ensures
        unescaped(vstd::utf8::encode_utf8(escaped(bytes))) == Some(bytes),
    decreases bytes.len(),
{
    if bytes.len() == 0 {
        assert(vstd::utf8::encode_utf8(Seq::<char>::empty()) =~= Seq::<u8>::empty());
        assert(bytes =~= Seq::<u8>::empty());
    } else {
        let b = bytes[0];
        let rest = escaped(bytes.skip(1));
        let tail = vstd::utf8::encode_utf8(rest);
        lemma_unescape(bytes.skip(1));
        assert(seq![b] + bytes.skip(1) =~= bytes);
        if is_plain(b) {
            let c = b as char;
            lemma_encode_first(c, rest);
            let all = seq![c as u8] + tail;
            assert(c as u8 == b);
            assert(all[0] == b);
            assert(all.skip(1) =~= tail);
            assert(escaped(bytes) == seq![c] + rest);
        } else {
            let high = hex_char(b as int / 16);
            let low = hex_char(b as int % 16);
            lemma_digit_read_back(b as int / 16);
            lemma_digit_read_back(b as int % 16);
            assert(escaped(bytes) =~= seq!['%'] + (seq![high] + (seq![low] + rest)));
            lemma_encode_first('%', seq![high] + (seq![low] + rest));
            lemma_encode_first(high, seq![low] + rest);
            lemma_encode_first(low, rest);
            let all = seq!['%' as u8] + (seq![high as u8] + (seq![low as u8] + tail));
            assert(all[0] == 37);
            assert(all[1] == high as u8);
            assert(all[2] == low as u8);
            assert(all.skip(3) =~= tail);
        }
    }
}

/// A segment is read back as the text that it was written for.
pub proof fn decode_after_encode(value: Seq<char>)
    ensures
        segment_value(segment(value)) == Ok::<Seq<char>, AdapterErrorView>(value),
{
    let bytes = vstd::utf8::encode_utf8(value);
    vstd::utf8::encode_utf8_valid_utf8(value);
    vstd::utf8::encode_utf8_decode_utf8(value);
    lemma_unescape(bytes);
    reveal_strlit(".");
    reveal_strlit("..");
    reveal_strlit("%2E");
    reveal_strlit("%2E%2E");
    let none = Seq::<char>::empty();
    let dot = seq!['%'] + (seq!['2'] + (seq!['E'] + none));
    assert("%2E"@ =~= dot);
    assert("%2E%2E"@ =~= seq!['%'] + (seq!['2'] + (seq!['E'] + dot)));
    assert(vstd::utf8::encode_utf8(none) =~= Seq::<u8>::empty());
    lemma_encode_first('E', none);
    lemma_encode_first('2', seq!['E'] + none);
    lemma_encode_first('%', seq!['2'] + (seq!['E'] + none));
    lemma_encode_first('E', dot);
    lemma_encode_first('2', seq!['E'] + dot);
    lemma_encode_first('%', seq!['2'] + (seq!['E'] + dot));
    reveal_with_fuel(unescaped, 4);
    let one = vstd::utf8::encode_utf8(dot);
    assert(one =~= seq![37u8, 50u8, 69u8]);
    assert(one.skip(3) =~= Seq::<u8>::empty());
    assert(unescaped(one) == Some(seq![46u8] + Seq::<u8>::empty()));
    assert(seq![46u8] + Seq::<u8>::empty() =~= seq![46u8]);
    let two = vstd::utf8::encode_utf8("%2E%2E"@);
    assert(two =~= seq![37u8, 50u8, 69u8, 37u8, 50u8, 69u8]);
    assert(two.skip(3) =~= one);
    assert(unescaped(two) == Some(seq![46u8] + seq![46u8]));
    if value == "."@ {
        assert(value =~= seq!['.'] + none);
        lemma_encode_first('.', none);
        assert(bytes =~= seq![46u8]);
    } else if value == ".."@ {
        assert(value =~= seq!['.'] + (seq!['.'] + none));
        lemma_encode_first('.', none);
        lemma_encode_first('.', seq!['.'] + none);
        assert(bytes =~= seq![46u8] + seq![46u8]);
    }
}

/// Different texts are written as different segments.
pub proof fn encoding_is_injective(a: Seq<char>, b: Seq<char>)
    requires
        segment(a) == segment(b),
    ensures
        a == b,
{
    decode_after_encode(a);
    decode_after_encode(b);
}

proof fn lemma_no_slash(bytes: Seq<u8>, i: int)
    requires
        0 <= i < escaped(bytes).len(),
    ensures
        escaped(bytes)[i] != '/',
    decreases bytes.len(),
{
    let first = escaped_byte(bytes[0]);
    if i < first.len() {
        if !is_plain(bytes[0]) {
            lemma_digit_read_back(bytes[0] as int / 16);
            lemma_digit_read_back(bytes[0] as int % 16);
        }
        assert(escaped(bytes)[i] == first[i]);
    } else {
        lemma_no_slash(bytes.skip(1), i - first.len());
        assert(escaped(bytes)[i] == escaped(bytes.skip(1))[i - first.len()]);
    }
}

/// A segment is one: it holds no separator, and names no directory.
pub proof fn segments_are_safe(value: Seq<char>, i: int)
    ensures
        0 <= i < segment(value).len() ==> segment(value)[i] != '/',
        segment(value) != "."@,
        segment(value) != ".."@,
{
    reveal_strlit(".");
    reveal_strlit("..");
    reveal_strlit("%2E");
    reveal_strlit("%2E%2E");
    reveal_with_fuel(unescaped, 4);
    assert("%2E"@.len() == 3 && "%2E%2E"@.len() == 6 && "."@.len() == 1 && ".."@.len() == 2);
    assert("%2E"@ =~= seq!['%', '2', 'E']);
    assert("%2E%2E"@ =~= seq!['%', '2', 'E', '%', '2', 'E']);
    if value != "."@ && value != ".."@ {
        let bytes = vstd::utf8::encode_utf8(value);
        if 0 <= i < segment(value).len() {
            lemma_no_slash(bytes, i);
        }
        let none = Seq::<char>::empty();
        assert("."@ =~= seq!['.'] + none);
        assert(".."@ =~= seq!['.'] + (seq!['.'] + none));
        lemma_encode_first('.', none);
        lemma_encode_first('.', seq!['.'] + none);
        assert(vstd::utf8::encode_utf8(none) =~= Seq::<u8>::empty());
        decode_after_encode(value);
        if segment(value) == "."@ {
            let raw = vstd::utf8::encode_utf8("."@);
            assert(raw =~= seq![46u8]);
            assert(raw.skip(1) =~= Seq::<u8>::empty());
            assert(unescaped(raw) == Some(seq![46u8] + Seq::<u8>::empty()));
            assert(seq![46u8] + Seq::<u8>::empty() =~= raw);
            vstd::utf8::encode_utf8_decode_utf8("."@);
            assert(false);
        }
        if segment(value) == ".."@ {
            let raw = vstd::utf8::encode_utf8(".."@);
            assert(raw =~= seq![46u8, 46u8]);
            assert(raw.skip(1) =~= seq![46u8]);
            assert(raw.skip(1).skip(1) =~= Seq::<u8>::empty());
            assert(unescaped(raw.skip(1)) == Some(seq![46u8] + Seq::<u8>::empty()));
            assert(seq![46u8] + (seq![46u8] + Seq::<u8>::empty()) =~= raw);
            vstd::utf8::encode_utf8_decode_utf8(".."@);
            assert(false);
        }
    }
}

} // verus!
