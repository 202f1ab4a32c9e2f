//! Text as a sequence of characters: searching, slicing, numbers and order.

use vstd::prelude::*;

verus! {

/// Appends one character.
pub assume_specification[ String::push ](s: &mut String, c: char)
    ensures
        final(s)@ == old(s)@.push(c),
;

/// Equality of two string slices, which std defines as equality of their contents.
#[verifier::external_body]
pub(crate) fn same(a: &str, b: &str) -> (r: bool)
    ensures
        r == (a@ == b@),
{
    a == b
}

/// Why bytes are no text, as `String::from_utf8` says it.
pub uninterp spec fn utf8_failure(bytes: Seq<u8>) -> Seq<char>;

/// Reads bytes as UTF-8.
///
/// `String::from_utf8`, which accepts exactly the valid UTF-8 sequences and
/// keeps their bytes. The contract also claims that the message of its error
/// depends on the bytes alone.
#[verifier::external_body]
pub(crate) fn from_bytes(bytes: Vec<u8>) -> (r: Result<String, String>)
    ensures
        r is Ok <==> vstd::utf8::valid_utf8(bytes@),
        r matches Ok(text) ==> vstd::utf8::encode_utf8(text@) == bytes@,
        r matches Err(message) ==> message@ == utf8_failure(bytes@),
{
    String::from_utf8(bytes).map_err(|error| error.to_string())
}

/// The bytes of a text in UTF-8.
pub fn bytes_of(s: &str) -> (r: Vec<u8>)
    ensures
        r@ == vstd::utf8::encode_utf8(s@),
{
    let bytes = s.as_bytes();
    let mut out: Vec<u8> = Vec::new();
    let mut i: usize = 0;
    while i < bytes.len()
        invariant
            i <= bytes.len(),
            out@ == bytes@.take(i as int),
        decreases bytes.len() - i,
    {
        out.push(bytes[i]);
        i += 1;
        assert(bytes@.take(i as int) =~= bytes@.take(i - 1).push(bytes@[i - 1]));
    }
    assert(bytes@.take(bytes@.len() as int) =~= bytes@);
    out
}

/// `part` stands in `s` at position `i`.
pub open spec fn occurs_at(s: Seq<char>, part: Seq<char>, i: int) -> bool {
    0 <= i && i + part.len() <= s.len() && s.subrange(i, i + part.len()) == part
}

/// The first position from `i` on at which `part` stands in `s`.
pub open spec fn find_from(s: Seq<char>, part: Seq<char>, i: int) -> Option<int>
    decreases s.len() + 1 - i,
{
    if i < 0 || i + part.len() > s.len() {
        None
    } else if occurs_at(s, part, i) {
        Some(i)
    } else {
        find_from(s, part, i + 1)
    }
}

/// The first position at which `part` stands in `s`.
pub open spec fn find(s: Seq<char>, part: Seq<char>) -> Option<int> {
    find_from(s, part, 0)
}

/// `s` holds `part` somewhere.
pub open spec fn contains(s: Seq<char>, part: Seq<char>) -> bool {
    find(s, part) is Some
}

/// What follows `prefix` in `s`, if `s` starts with it.
pub open spec fn without_prefix(s: Seq<char>, prefix: Seq<char>) -> Option<Seq<char>> {
    if prefix.is_prefix_of(s) {
        Some(s.skip(prefix.len() as int))
    } else {
        None
    }
}

/// A found position is an occurrence, and nothing before it is.
pub proof fn lemma_find_from(s: Seq<char>, part: Seq<char>, i: int)
    requires
        0 <= i,
    ensures
        match find_from(s, part, i) {
            Some(at) => {
                &&& i <= at
                &&& occurs_at(s, part, at)
                &&& forall|j: int| i <= j < at ==> !#[trigger] occurs_at(s, part, j)
            },
            None => forall|j: int| i <= j ==> !#[trigger] occurs_at(s, part, j),
        },
    decreases s.len() + 1 - i,
{
    if i + part.len() > s.len() {
    } else if occurs_at(s, part, i) {
    } else {
        lemma_find_from(s, part, i + 1);
    }
}

/// The position that a search finds is fixed by being the first occurrence.
pub proof fn lemma_find_from_is(s: Seq<char>, part: Seq<char>, i: int, at: int)
    requires
        0 <= i <= at,
        occurs_at(s, part, at),
        forall|j: int| i <= j < at ==> !#[trigger] occurs_at(s, part, j),
    ensures
        find_from(s, part, i) == Some(at),
{
    lemma_find_from(s, part, i);
    assert(occurs_at(s, part, at));
}

/// A search from `i` on is a search of what follows `i`.
pub proof fn lemma_find_skip(s: Seq<char>, part: Seq<char>, i: int, k: int)
    requires
        0 <= i <= s.len(),
        0 <= k,
    ensures
        find_from(s, part, i + k) == (match find_from(s.skip(i), part, k) {
            Some(at) => Some(at + i),
            None => None,
        }),
    decreases s.len() + 1 - i - k,
{
    let t = s.skip(i);
    if i + k + part.len() <= s.len() {
        assert(t.subrange(k, k + part.len()) =~= s.subrange(i + k, i + k + part.len()));
        if !occurs_at(t, part, k) {
            lemma_find_skip(s, part, i, k + 1);
        }
    }
}

/// The characters of a string.
pub fn chars_of(s: &str) -> (r: Vec<char>)
    ensures
        r@ == s@,
{
    broadcast use {vstd::string::axiom_spec_iter, vstd::string::next_postcondition};

    let mut out: Vec<char> = Vec::new();
    for c in iter: s.chars()
        invariant
            iter.seq() == s@,
            out@ == s@.take(iter.index() as int),
    {
        out.push(c);
    }
    assert(s@.take(s@.len() as int) == s@);
    out
}

/// The string of the characters from `from` to `to`.
pub fn slice(v: &Vec<char>, from: usize, to: usize) -> (r: String)
    requires
        from <= to <= v.len(),
    ensures
        r@ == v@.subrange(from as int, to as int),
{
    let mut out = String::new();
    let mut i: usize = from;
    while i < to
        invariant
            from <= i <= to <= v.len(),
            out@ == v@.subrange(from as int, i as int),
        decreases to - i,
    {
        out.push(v[i]);
        i += 1;
        assert(v@.subrange(from as int, i as int) == v@.subrange(from as int, i - 1).push(v@[i - 1]));
    }
    out
}

/// Whether `part` stands in `v` at `i`.
pub fn stands_at(v: &Vec<char>, part: &Vec<char>, i: usize) -> (r: bool)
    ensures
        r == occurs_at(v@, part@, i as int),
{
    if part.len() > v.len() || i > v.len() - part.len() {
        return false;
    }
    let mut k: usize = 0;
    while k < part.len()
        invariant
            0 <= k <= part.len(),
            i + part.len() <= v.len(),
            forall|j: int| 0 <= j < k ==> v@[i + j] == part@[j],
        decreases part.len() - k,
    {
        if v[i + k] != part[k] {
            assert(v@.subrange(i as int, i + part@.len())[k as int] != part@[k as int]);
            return false;
        }
        k += 1;
    }
    assert(v@.subrange(i as int, i + part@.len()) =~= part@);
    true
}

/// The first position from `from` on at which `part` stands in `v`.
pub fn position(v: &Vec<char>, part: &Vec<char>, from: usize) -> (r: Option<usize>)
    ensures
        match r {
            Some(at) => find_from(v@, part@, from as int) == Some(at as int),
            None => find_from(v@, part@, from as int) is None,
        },
        r matches Some(at) ==> from <= at && at + part.len() <= v.len(),
{
    let mut i: usize = from;
    loop
        invariant
            from <= i,
            from <= v.len() ==> i <= v.len() + 1,
            find_from(v@, part@, from as int) == find_from(v@, part@, i as int),
        decreases v.len() + 1 - i,
    {
        if part.len() > v.len() || i > v.len() - part.len() {
            return None;
        }
        if stands_at(v, part, i) {
            return Some(i);
        }
        assert(part@.len() == 0 ==> v@.subrange(i as int, i as int) =~= part@);
        i += 1;
    }
}

/// The two texts one after the other.
pub fn joined(a: &str, b: &str) -> (r: String)
    ensures
        r@ == a@ + b@,
{
    let mut out = String::new();
    out.append(a);
    out.append(b);
    assert(out@ == a@ + b@);
    out
}

/// The three texts one after the other.
pub fn joined3(a: &str, b: &str, c: &str) -> (r: String)
    ensures
        r@ == a@ + b@ + c@,
{
    let mut out = joined(a, b);
    out.append(c);
    out
}

/// Whether `s` starts with `prefix`.
pub fn starts_with(s: &str, prefix: &str) -> (r: bool)
    ensures
        r == prefix@.is_prefix_of(s@),
{
    let v = chars_of(s);
    let p = chars_of(prefix);
    stands_at(&v, &p, 0)
}

/// Whether `part` stands somewhere in `s`.
pub fn holds(s: &str, part: &str) -> (r: bool)
    ensures
        r == contains(s@, part@),
{
    let v = chars_of(s);
    let p = chars_of(part);
    position(&v, &p, 0).is_some()
}

/// What follows `prefix` in `s`, if `s` starts with it.
pub fn strip_prefix(s: &str, prefix: &str) -> (r: Option<String>)
    ensures
        match r {
            Some(rest) => without_prefix(s@, prefix@) == Some(rest@),
            None => without_prefix(s@, prefix@) is None,
        },
{
    let v = chars_of(s);
    let p = chars_of(prefix);
    if stands_at(&v, &p, 0) {
        Some(slice(&v, p.len(), v.len()))
    } else {
        None
    }
}

/// A character with the Unicode property White_Space.
pub open spec fn whitespace(c: char) -> bool {
    ||| 0x9 <= c as int <= 0xd
    ||| c as int == 0x20
    ||| c as int == 0x85
    ||| c as int == 0xa0
    ||| c as int == 0x1680
    ||| 0x2000 <= c as int <= 0x200a
    ||| c as int == 0x2028
    ||| c as int == 0x2029
    ||| c as int == 0x202f
    ||| c as int == 0x205f
    ||| c as int == 0x3000
}

/// Whether the character has the Unicode property White_Space.
pub fn is_whitespace(c: char) -> (r: bool)
    ensures
        r == whitespace(c),
{
    let n: u32 = c as u32;
    (0x9 <= n && n <= 0xd) || n == 0x20 || n == 0x85 || n == 0xa0 || n == 0x1680 || (0x2000 <= n
        && n <= 0x200a) || n == 0x2028 || n == 0x2029 || n == 0x202f || n == 0x205f || n == 0x3000
}

/// `s` without the white space at its start.
pub open spec fn trim_start(s: Seq<char>) -> Seq<char>
    decreases s.len(),
{
    if s.len() > 0 && whitespace(s[0]) {
        trim_start(s.skip(1))
    } else {
        s
    }
}

/// `s` without the white space at its end.
pub open spec fn trim_end(s: Seq<char>) -> Seq<char>
    decreases s.len(),
{
    if s.len() > 0 && whitespace(s.last()) {
        trim_end(s.drop_last())
    } else {
        s
    }
}

/// `s` without the white space at its ends.
pub open spec fn trim(s: Seq<char>) -> Seq<char> {
    trim_end(trim_start(s))
}

/// `s` without the white space at its ends.
pub fn trimmed(s: &str) -> (r: String)
    ensures
        r@ == trim(s@),
{
    let v = chars_of(s);
    let mut i: usize = 0;
    assert(v@.skip(0) =~= v@);
    while i < v.len() && is_whitespace(v[i])
        invariant
            i <= v.len(),
            trim_start(v@.skip(i as int)) == trim_start(v@),
        decreases v.len() - i,
    {
        assert(v@.skip(i as int).skip(1) =~= v@.skip(i + 1));
        i += 1;
    }
    let mut j: usize = v.len();
    assert(v@.skip(i as int) =~= v@.subrange(i as int, j as int));
    let ghost body = v@.skip(i as int);
    while j > i && is_whitespace(v[j - 1])
        invariant
            i <= j <= v.len(),
            trim_end(v@.subrange(i as int, j as int)) == trim_end(body),
        decreases j,
    {
        assert(v@.subrange(i as int, j as int).drop_last() =~= v@.subrange(i as int, j - 1));
        j -= 1;
    }
    slice(&v, i, j)
}

/// Whether nothing but white space stands in `s`.
pub fn is_blank(s: &str) -> (r: bool)
    ensures
        r == (trim(s@).len() == 0),
{
    let t = trimmed(s);
    chars_of(t.as_str()).len() == 0
}

/// A decimal digit.
pub open spec fn is_digit(c: char) -> bool {
    '0' <= c && c <= '9'
}

/// The value of a decimal digit.
pub open spec fn digit_value(c: char) -> nat {
    (c as int - '0' as int) as nat
}

/// The decimal digit of a value below ten.
pub open spec fn digit(n: nat) -> char {
    (48 + n) as char
}

/// The decimal text of a number, without leading zeros.
pub open spec fn decimal(n: nat) -> Seq<char>
    decreases n,
{
    if n < 10 {
        seq![digit(n)]
    } else {
        decimal(n / 10).push(digit(n % 10))
    }
}

/// Nothing but decimal digits, at least one.
pub open spec fn is_number(s: Seq<char>) -> bool {
    s.len() > 0 && forall|i: int| 0 <= i < s.len() ==> is_digit(#[trigger] s[i])
}

/// The number that a sequence of decimal digits writes.
pub open spec fn number_value(s: Seq<char>) -> nat
    decreases s.len(),
{
    if s.len() == 0 {
        0
    } else {
        number_value(s.drop_last()) * 10 + digit_value(s.last())
    }
}

/// The number that a text writes as an unsigned integer up to `max`: digits,
/// with at most one plus sign before them.
pub open spec fn unsigned_value(s: Seq<char>, max: nat) -> Option<nat> {
    let digits = if s.len() > 0 && s[0] == '+' {
        s.skip(1)
    } else {
        s
    };
    if is_number(digits) && number_value(digits) <= max {
        Some(number_value(digits))
    } else {
        None
    }
}

/// A decimal text is made of digits and reads as the number it was made from.
pub proof fn lemma_decimal(n: nat)
    ensures
        is_number(decimal(n)),
        number_value(decimal(n)) == n,
    decreases n,
{
    if n < 10 {
        reveal_with_fuel(number_value, 2);
        assert(decimal(n).drop_last() =~= Seq::<char>::empty());
        assert(decimal(n).last() == digit(n));
    } else {
        lemma_decimal(n / 10);
        assert(decimal(n).drop_last() =~= decimal(n / 10));
        let d = decimal(n);
        assert forall|i: int| 0 <= i < d.len() implies is_digit(#[trigger] d[i]) by {
            if i < d.len() - 1 {
                assert(d[i] == decimal(n / 10)[i]);
            }
        }
    }
}

/// An unsigned integer that fits is read back from its decimal text.
pub proof fn lemma_unsigned_decimal(n: nat, max: nat)
    requires
        n <= max,
    ensures
        unsigned_value(decimal(n), max) == Some(n),
{
    lemma_decimal(n);
    assert(is_digit(decimal(n)[0]));
}

/// The value of a prefix of digits does not exceed that of the whole.
pub proof fn lemma_number_value_prefix(s: Seq<char>, i: int)
    requires
        0 <= i <= s.len(),
        forall|j: int| 0 <= j < s.len() ==> is_digit(#[trigger] s[j]),
    ensures
        number_value(s.take(i)) <= number_value(s),
    decreases s.len(),
{
    if i < s.len() {
        lemma_number_value_prefix(s.drop_last(), i);
        assert(s.drop_last().take(i) =~= s.take(i));
    } else {
        assert(s.take(i) =~= s);
    }
}

/// The decimal text of a number.
pub fn number(n: u128) -> (r: String)
    ensures
        r@ == decimal(n as nat),
    decreases n,
{
    if n < 10 {
        let mut out = String::new();
        out.push((48 + n as u8) as char);
        assert(out@ =~= decimal(n as nat));
        out
    } else {
        let mut out = number(n / 10);
        out.push((48 + (n % 10) as u8) as char);
        out
    }
}

/// Reads an unsigned integer up to `max`: digits, with at most one plus sign
/// before them.
pub fn parse_unsigned(s: &str, max: u128) -> (r: Option<u128>)
    ensures
        match r {
            Some(n) => unsigned_value(s@, max as nat) == Some(n as nat) && n <= max,
            None => unsigned_value(s@, max as nat) is None,
        },
{
    let v = chars_of(s);
    let start: usize = if v.len() > 0 && v[0] == '+' { 1 } else { 0 };
    let ghost digits = v@.skip(start as int);
    assert(start == 0 ==> digits =~= v@);
    if start == v.len() {
        return None;
    }
    let mut value: u128 = 0;
    let mut i: usize = start;
    assert(digits.take(0) =~= Seq::<char>::empty());
    while i < v.len()
        invariant
            start <= i <= v.len(),
            digits == v@.skip(start as int),
            digits == (if s@.len() > 0 && s@[0] == '+' { s@.skip(1) } else { s@ }),
            value == number_value(digits.take(i - start)),
            value <= max,
            forall|j: int| 0 <= j < i - start ==> is_digit(#[trigger] digits[j]),
        decreases v.len() - i,
    {
        let c = v[i];
        let ghost k = i - start;
        assert(digits[k] == c);
        if c < '0' || c > '9' {
            return None;
        }
        let d: u128 = (c as u32 - 48) as u128;
        proof {
            assert(digits.take(k + 1).drop_last() =~= digits.take(k));
            assert(digits.take(k + 1).last() == c);
            assert(number_value(digits.take(k + 1)) == value * 10 + d);
        }
        let next = value.checked_mul(10);
        let next = match next {
            Some(n) => n.checked_add(d),
            None => None,
        };
        match next {
            Some(n) if n <= max => {
                value = n;
            },
            _ => {
                proof {
                    if is_number(digits) {
                        lemma_number_value_prefix(digits, k + 1);
                    }
                }
                return None;
            },
        }
        i += 1;
    }
    assert(digits.take(digits.len() as int) =~= digits);
    Some(value)
}

/// The order of texts: by the first character in which they differ, a text
/// before its continuations.
pub open spec fn before(a: Seq<char>, b: Seq<char>) -> bool
    decreases a.len(),
{
    if b.len() == 0 {
        false
    } else if a.len() == 0 {
        true
    } else if a[0] != b[0] {
        a[0] < b[0]
    } else {
        before(a.skip(1), b.skip(1))
    }
}

/// Whether `a` comes before `b`.
pub fn comes_before(a: &str, b: &str) -> (r: bool)
    ensures
        r == before(a@, b@),
{
    let v = chars_of(a);
    let w = chars_of(b);
    let mut i: usize = 0;
    assert(v@.skip(0) =~= v@);
    assert(w@.skip(0) =~= w@);
    while i < v.len() && i < w.len() && v[i] == w[i]
        invariant
            i <= v.len(),
            i <= w.len(),
            before(v@.skip(i as int), w@.skip(i as int)) == before(v@, w@),
        decreases v.len() - i,
    {
        assert(v@.skip(i as int).skip(1) =~= v@.skip(i + 1));
        assert(w@.skip(i as int).skip(1) =~= w@.skip(i + 1));
        i += 1;
    }
    if i >= w.len() {
        false
    } else if i >= v.len() {
        true
    } else {
        v[i] < w[i]
    }
}

/// The items of a list from the last one to the first.
pub fn reversed<T>(items: Vec<T>) -> (r: Vec<T>)
    ensures
        r@ == items@.reverse(),
{
    let mut left = items;
    let mut out: Vec<T> = Vec::new();
    assert(items@.take(items.len() as int) =~= items@);
    while left.len() > 0
        invariant
            left.len() <= items@.len(),
            left@ == items@.take(left.len() as int),
            out@ == items@.reverse().take(items@.len() - left.len()),
        decreases left.len(),
    {
        let ghost n = left.len() - 1;
        if let Some(item) = left.pop() {
            out.push(item);
        }
        assert(left@ =~= items@.take(n));
        assert(out@ =~= items@.reverse().take(items@.len() - n));
    }
    assert(items@.reverse().take(items@.len() as int) =~= items@.reverse());
    out
}

/// What stands before and after the first `part` in `s`.
pub open spec fn split(s: Seq<char>, part: Seq<char>) -> Option<(Seq<char>, Seq<char>)> {
    match find(s, part) {
        Some(i) => Some((s.take(i), s.skip(i + part.len()))),
        None => None,
    }
}

/// What stands before and after the first `part` in `s`.
pub fn split_once(s: &str, part: &str) -> (r: Option<(String, String)>)
    ensures
        match r {
            Some((before, after)) => split(s@, part@) == Some((before@, after@)),
            None => split(s@, part@) is None,
        },
{
    let v = chars_of(s);
    let p = chars_of(part);
    match position(&v, &p, 0) {
        Some(i) => {
            let before = slice(&v, 0, i);
            let after = slice(&v, i + p.len(), v.len());
            assert(before@ =~= s@.take(i as int));
            assert(after@ =~= s@.skip(i + p@.len()));
            Some((before, after))
        },
        None => None,
    }
}

/// The decimal text of a number that may be negative.
pub open spec fn signed_decimal(n: int) -> Seq<char> {
    if n < 0 {
        seq!['-'] + decimal((-n) as nat)
    } else {
        decimal(n as nat)
    }
}

/// The decimal text of a number that may be negative.
pub fn signed_number(n: i64) -> (r: String)
    ensures
        r@ == signed_decimal(n as int),
{
    if n < 0 {
        let digits = number((-(n as i128)) as u128);
        proof {
            reveal_strlit("-");
            assert("-"@ =~= seq!['-']);
        }
        joined("-", digits.as_str())
    } else {
        number(n as u128)
    }
}

/// The order of texts is a strict order.
pub proof fn lemma_before(a: Seq<char>, b: Seq<char>)
    ensures
        !(before(a, b) && before(b, a)),
        !before(a, a),
        a != b ==> before(a, b) || before(b, a),
    decreases a.len(),
{
    if a.len() > 0 {
        lemma_before(a.skip(1), a.skip(1));
    }
    if a.len() > 0 && b.len() > 0 && a[0] == b[0] {
        lemma_before(a.skip(1), b.skip(1));
        if a.skip(1) == b.skip(1) {
            assert(a =~= seq![a[0]] + a.skip(1));
            assert(b =~= seq![b[0]] + b.skip(1));
        }
    }
    if a.len() == 0 && b.len() == 0 {
        assert(a =~= b);
    }
}

/// What comes before what comes before a text comes before it.
pub proof fn lemma_before_transitive(a: Seq<char>, b: Seq<char>, c: Seq<char>)
    requires
        before(a, b),
        before(b, c),
    ensures
        before(a, c),
    decreases a.len(),
{
    if a.len() > 0 && b.len() > 0 && c.len() > 0 && a[0] == b[0] && b[0] == c[0] {
        lemma_before_transitive(a.skip(1), b.skip(1), c.skip(1));
    }
}

} // verus!
