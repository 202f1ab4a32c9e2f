//! What the parts of texts are.

use crate::crypto;
use crate::json::{self, JsonView};
use crate::text;
use vstd::prelude::*;

verus! {

/// What stands between two positions has no white space at its ends, and everything
/// around it is white space.
pub open spec fn is_inner(s: Seq<char>, start: int, end: int) -> bool {
    &&& 0 <= start <= end <= s.len()
    &&& forall|k: int| 0 <= k < start ==> text::whitespace(#[trigger] s[k])
    &&& forall|k: int| end <= k < s.len() ==> text::whitespace(#[trigger] s[k])
    &&& start < end ==> !text::whitespace(s[start]) && !text::whitespace(s[end - 1])
}

/// A text that holds more than white space.
pub open spec fn is_filled(s: Seq<char>) -> bool {
    exists|k: int| 0 <= k < s.len() && !text::whitespace(#[trigger] s[k])
}

proof fn lemma_trim_start(s: Seq<char>) -> (start: int)
    ensures
        0 <= start <= s.len(),
        text::trim_start(s) == s.skip(start),
        forall|k: int| 0 <= k < start ==> text::whitespace(#[trigger] s[k]),
        start < s.len() ==> !text::whitespace(s[start]),
    decreases s.len(),
{
    if s.len() > 0 && text::whitespace(s[0]) {
        let start: int = lemma_trim_start(s.skip(1)) + 1;
        assert(s.skip(1).skip(start - 1) =~= s.skip(start));
        assert forall|k: int| 0 <= k < start implies text::whitespace(#[trigger] s[k]) by {
            if k > 0 {
                assert(s.skip(1)[k - 1] == s[k]);
            }
        }
        if start < s.len() {
            assert(s.skip(1)[start - 1] == s[start]);
        }
        start
    } else {
        assert(s.skip(0) =~= s);
        0
    }
}

proof fn lemma_trim_end(s: Seq<char>) -> (end: int)
    ensures
        0 <= end <= s.len(),
        text::trim_end(s) == s.take(end),
        forall|k: int| end <= k < s.len() ==> text::whitespace(#[trigger] s[k]),
        end > 0 ==> !text::whitespace(s[end - 1]),
    decreases s.len(),
{
    if s.len() > 0 && text::whitespace(s.last()) {
        let rest = s.drop_last();
        let end: int = lemma_trim_end(rest);
        assert(rest.take(end) =~= s.take(end));
        assert forall|k: int| end <= k < s.len() implies text::whitespace(#[trigger] s[k]) by {
            if k < rest.len() {
                assert(rest[k] == s[k]);
            }
        }
        if end > 0 {
            assert(rest[end - 1] == s[end - 1]);
        }
        end
    } else {
        assert(s.take(s.len() as int) =~= s);
        s.len() as int
    }
}

/// Trimming takes the white space off both ends of a text and nothing else.
pub proof fn trimming_takes_white_space_off_the_ends(s: Seq<char>, start: int, end: int)
    requires
        is_inner(s, start, end),
    ensures
        text::trim(s) == s.subrange(start, end),
{
    let first: int = lemma_trim_start(s);
    let rest = s.skip(first);
    let last: int = lemma_trim_end(rest);
    assert forall|k: int| 0 <= k < rest.len() implies #[trigger] rest[k] == s[first + k] by {}
    assert(rest.take(last) =~= s.subrange(first, first + last));
    if start < end {
        if first < start {
            assert(text::whitespace(s[first]));
        }
        if start < first {
            assert(text::whitespace(s[start]));
        }
        assert(first == start);
        if first + last < end {
            assert(rest[end - 1 - first] == s[end - 1]);
        }
        if end < first + last {
            assert(rest[last - 1] == s[first + last - 1]);
        }
    } else {
        if first < s.len() {
            assert(text::whitespace(s[first]));
        }
        assert(s.subrange(first, first + last) =~= s.subrange(start, end));
    }
}

/// Nothing is left of a text of white space, and something of any other.
pub proof fn white_space_is_trimmed_to_nothing(s: Seq<char>)
    ensures
        text::trim(s).len() > 0 <==> is_filled(s),
{
    let first: int = lemma_trim_start(s);
    let rest = s.skip(first);
    let last: int = lemma_trim_end(rest);
    if last > 0 {
        assert(rest[0] == s[first]);
    }
    if is_filled(s) {
        let k: int = choose|k: int| 0 <= k < s.len() && !text::whitespace(#[trigger] s[k]);
        assert(first <= k);
        assert(rest[k - first] == s[k]);
    }
}

/// A text that a prefix was put before is what is left without it; one that does not
/// begin with it has no such rest.
pub proof fn prefixes_are_taken_off(s: Seq<char>, prefix: Seq<char>, rest: Seq<char>)
    ensures
        text::without_prefix(prefix + rest, prefix) == Some(rest),
        text::without_prefix(s, prefix) == Some(rest) ==> s == prefix + rest,
        text::without_prefix(s, prefix) is None ==> s != prefix + rest,
{
    assert((prefix + rest).skip(prefix.len() as int) =~= rest);
    assert(prefix.is_prefix_of(prefix + rest));
    if prefix.is_prefix_of(s) {
        assert(s =~= prefix + s.skip(prefix.len() as int));
    }
}

/// A text is split where the part that is looked for stands first.
pub proof fn splits_are_at_the_first_occurrence(
    before: Seq<char>,
    part: Seq<char>,
    after: Seq<char>,
)
    requires
        forall|j: int|
            0 <= j < before.len() ==> !#[trigger] text::occurs_at(before + part + after, part, j),
    ensures
        text::split(before + part + after, part) == Some((before, after)),
{
    let s = before + part + after;
    let at = before.len() as int;
    assert(s.subrange(at, at + part.len()) =~= part);
    text::lemma_find_from_is(s, part, 0, at);
    assert(s.take(at) =~= before);
    assert(s.skip(at + part.len()) =~= after);
}

/// The digits of a number give the number back, and begin with no zero but that of zero
/// itself.
pub proof fn decimals_are_read_back(n: nat, max: nat)
    ensures
        text::is_number(text::decimal(n)),
        text::number_value(text::decimal(n)) == n,
        n > 0 ==> text::decimal(n)[0] != '0',
        n <= max ==> text::unsigned_value(text::decimal(n), max) == Some(n),
        n > max ==> text::unsigned_value(text::decimal(n), max) is None,
        n <= max ==> text::unsigned_value(seq!['+'] + text::decimal(n), max) == Some(n),
        text::signed_decimal(-(n as int)) == if n == 0 {
            text::decimal(0)
        } else {
            seq!['-'] + text::decimal(n)
        },
{
    text::lemma_decimal(n);
    if n > 0 {
        lemma_first_digit(n);
    }
    let digits = text::decimal(n);
    assert(text::is_digit(digits[0]));
    assert((seq!['+'] + digits).skip(1) =~= digits);
}

proof fn lemma_first_digit(n: nat)
    requires
        n > 0,
    ensures
        text::decimal(n).len() > 0,
        text::decimal(n)[0] != '0',
    decreases n,
{
    if n >= 10 {
        lemma_first_digit(n / 10);
    }
}

/// Bytes that are written in hexadecimal are read back, and take two digits each; digits
/// that are letters may be large or small.
pub proof fn hexadecimal_texts_are_read_back(bytes: Seq<u8>, high: int, low: int)
    ensures
        crypto::is_hex(crypto::hex_text(bytes)),
        crypto::hex_bytes(crypto::hex_text(bytes)) == bytes,
        crypto::hex_text(bytes).len() == 2 * bytes.len(),
        0 <= high < 16 && 0 <= low < 16 ==> crypto::hex_pair(
            crypto::small_hex(high),
            crypto::small_hex(low),
        ) == Some(16 * high + low),
        0 <= low < 6 ==> crypto::hex_value((65 + low) as char) == Some(10 + low),
        crypto::hex_value('g') is None,
        crypto::hex_value('G') is None,
{
    let s = crypto::hex_text(bytes);
    assert forall|i: int| 0 <= i < bytes.len() implies #[trigger] crypto::hex_pair(
        s[2 * i],
        s[2 * i + 1],
    ) == Some(bytes[i] as int) by {
        let b = bytes[i] as int;
        assert((2 * i) % 2 == 0 && (2 * i) / 2 == i && (2 * i + 1) % 2 == 1 && (2 * i + 1) / 2
            == i);
        assert(s[2 * i] == crypto::small_hex(b / 16));
        assert(s[2 * i + 1] == crypto::small_hex(b % 16));
        lemma_small_hex(b / 16);
        lemma_small_hex(b % 16);
    }
    assert(crypto::hex_bytes(s) =~= bytes);
    if 0 <= high < 16 && 0 <= low < 16 {
        lemma_small_hex(high);
        lemma_small_hex(low);
    }
}

proof fn lemma_small_hex(n: int)
    requires
        0 <= n < 16,
    ensures
        crypto::hex_value(crypto::small_hex(n)) == Some(n),
{
}

proof fn lemma_member(members: Seq<(Seq<char>, JsonView)>, key: Seq<char>, from: int, at: int)
    requires
        0 <= from <= at <= members.len(),
        forall|j: int| from <= j < at ==> (#[trigger] members[j]).0 != key,
    ensures
        at < members.len() && members[at].0 == key ==> json::member_from(members, key, from) == Some(
            at,
        ),
        at == members.len() ==> json::member_from(members, key, from) is None,
    decreases at - from,
{
    if from < at {
        lemma_member(members, key, from + 1, at);
    }
}

/// A member of an object is the first one of its name, and there is none where no member
/// has the name; what is no object has no members.
pub proof fn members_are_found_by_their_name(
    members: Seq<(Seq<char>, JsonView)>,
    key: Seq<char>,
    at: int,
    value: JsonView,
)
    requires
        0 <= at <= members.len(),
        forall|j: int| 0 <= j < at ==> (#[trigger] members[j]).0 != key,
    ensures
        at < members.len() && members[at].0 == key ==> json::member(
            JsonView::Object(members),
            key,
        ) == Some(members[at].1),
        at == members.len() ==> json::member(JsonView::Object(members), key) is None,
        !(value is Object) ==> json::member(value, key) is None,
{
    lemma_member(members, key, 0, at);
}

/// A number without a sign or a fraction is read as what it writes, as far as a machine
/// number holds it; nothing else is read as a number.
pub proof fn numbers_are_read_as_they_are_written(n: nat, value: JsonView)
    ensures
        n <= u64::MAX ==> json::unsigned(JsonView::Number(text::decimal(n))) == Some(n as u64),
        n > u64::MAX ==> json::unsigned(JsonView::Number(text::decimal(n))) is None,
        json::unsigned(JsonView::Number(seq!['-'] + text::decimal(n))) is None,
        !(value is Number) ==> json::unsigned(value) is None,
{
    text::lemma_decimal(n);
    let negative = seq!['-'] + text::decimal(n);
    assert(negative[0] == '-');
    assert(!text::is_digit(negative[0]));
}

} // verus!
