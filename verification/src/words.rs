//! The words that make up a frame when it is written, and that scanning a
//! written frame gives them back.

use crate::error::ErrorView;
use crate::json::{self, JsonView, Value};
use crate::protocol::Uuid;
use crate::text;
use crate::wire::{self, TokenView};
use vstd::arithmetic::power;
use vstd::prelude::*;

verus! {

/// The hyphens before position `i` of an identifier's text.
pub open spec fn hyphens_before(i: int) -> int {
    if i <= 8 {
        0
    } else if i <= 13 {
        1
    } else if i <= 18 {
        2
    } else if i <= 23 {
        3
    } else {
        4
    }
}

/// The hexadecimal digit `k` of an identifier, from the highest on.
pub open spec fn uuid_digit(id: Uuid, k: int) -> char {
    json::hex_digit(id as int / power::pow(16, (31 - k) as nat) % 16)
}

/// The canonical text of an identifier: its 32 hexadecimal digits in lower case,
/// in groups of 8, 4, 4, 4 and 12 with hyphens between them.
pub open spec fn uuid_text(id: Uuid) -> Seq<char> {
    Seq::new(
        36,
        |i: int|
            if i == 8 || i == 13 || i == 18 || i == 23 {
                '-'
            } else {
                uuid_digit(id, i - hyphens_before(i))
            },
    )
}

/// The canonical text of an identifier.
///
/// `uuid::Uuid::to_string`, which writes the hyphenated form in lower case.
#[verifier::external_body]
pub(crate) fn write_uuid(id: Uuid) -> (r: String)
    ensures
        r@ == uuid_text(id),
{
    uuid::Uuid::from_u128(id).to_string()
}

/// The text of an identifier without hyphens.
pub open spec fn simple_text(id: Uuid) -> Seq<char> {
    Seq::new(32, |i: int| uuid_digit(id, i))
}

/// The text of an identifier without hyphens.
pub fn write_simple(id: Uuid) -> (r: String)
    ensures
        r@ == simple_text(id),
{
    let whole = write_uuid(id);
    let chars = text::chars_of(whole.as_str());
    let first = text::slice(&chars, 0, 8);
    let second = text::slice(&chars, 9, 13);
    let third = text::slice(&chars, 14, 18);
    let fourth = text::slice(&chars, 19, 23);
    let fifth = text::slice(&chars, 24, 36);
    let start = text::joined3(first.as_str(), second.as_str(), third.as_str());
    let all = text::joined3(start.as_str(), fourth.as_str(), fifth.as_str());
    assert(all@ =~= simple_text(id));
    all
}

/// What `uuid::Uuid::parse_str` reads.
pub uninterp spec fn uuid_value(text: Seq<char>) -> Option<Uuid>;

/// Reads an identifier.
///
/// `uuid::Uuid::parse_str`, which accepts more than the canonical text. What it
/// makes of any text is only named; that it reads the canonical text of an
/// identifier as that identifier is stated.
#[verifier::external_body]
pub(crate) fn read_uuid(text: &str) -> (r: Option<Uuid>)
    ensures
        r == uuid_value(text@),
        forall|id: Uuid| text@ == #[trigger] uuid_text(id) ==> r == Some(id),
{
    uuid::Uuid::parse_str(text).ok().map(|id| id.as_u128())
}

/// A character that a name can hold without quotation marks.
pub open spec fn safe_char(c: char) -> bool {
    ||| 'a' <= c && c <= 'z'
    ||| 'A' <= c && c <= 'Z'
    ||| '0' <= c && c <= '9'
    ||| c == '_' || c == '.' || c == '/' || c == ':' || c == '*' || c == '~' || c == '$' || c == '-'
}

/// A name that is written without quotation marks.
pub open spec fn safe(s: Seq<char>) -> bool {
    s.len() > 0 && forall|i: int| 0 <= i < s.len() ==> safe_char(#[trigger] s[i])
}

/// A word of a frame, by what it is.
#[verifier::ext_equal]
pub enum WordView {
    /// A reserved word.
    Keyword(Seq<char>),
    /// A name, quoted where it has to be.
    Name(Seq<char>),
    /// A text between quotation marks.
    Quoted(Seq<char>),
    /// A JSON value.
    Json(JsonView),
    /// An unsigned integer.
    Number(nat),
    /// An identifier.
    Id(Uuid),
}

/// The text of a word.
pub open spec fn word_text(word: WordView) -> Seq<char> {
    match word {
        WordView::Keyword(text) => text,
        WordView::Name(text) => if safe(text) {
            text
        } else {
            json::quoted(text)
        },
        WordView::Quoted(text) => json::quoted(text),
        WordView::Json(value) => json::json_text(value),
        WordView::Number(n) => text::decimal(n),
        WordView::Id(id) => uuid_text(id),
    }
}

/// What a word is scanned as.
pub open spec fn word_token(word: WordView) -> TokenView {
    match word {
        WordView::Name(text) => TokenView { text, quoted: !safe(text) },
        WordView::Quoted(text) => TokenView { text, quoted: true },
        WordView::Json(JsonView::Text(text)) => TokenView { text, quoted: true },
        _ => TokenView { text: word_text(word), quoted: false },
    }
}

/// What words are scanned as.
pub open spec fn word_tokens(words: Seq<WordView>) -> Seq<TokenView> {
    words.map_values(|word: WordView| word_token(word))
}

/// The words with single spaces between them.
pub open spec fn line(words: Seq<WordView>) -> Seq<char>
    decreases words.len(),
{
    if words.len() == 0 {
        Seq::empty()
    } else if words.len() == 1 {
        word_text(words[0])
    } else {
        line(words.drop_last()) + seq![' '] + word_text(words.last())
    }
}

/// A text without the control characters that a quoted word cannot hold: all but
/// line feed, carriage return and tab.
pub open spec fn wire_text(s: Seq<char>) -> bool {
    forall|i: int|
        0 <= i < s.len() ==> (#[trigger] s[i]) as int >= 32 || s[i] == '\n' || s[i] == '\r' || s[i]
            == '\t'
}

/// A word that scanning gives back.
pub open spec fn writable(word: WordView) -> bool {
    match word {
        WordView::Keyword(text) => bare(text),
        WordView::Name(text) => wire_text(text),
        WordView::Quoted(text) => wire_text(text),
        WordView::Json(value) => {
            &&& json::readable(value)
            &&& value matches JsonView::Text(text) ==> wire_text(text)
        },
        _ => true,
    }
}

/// A text that is scanned as one word up to the next white space.
pub open spec fn bare(s: Seq<char>) -> bool {
    &&& s.len() > 0
    &&& s[0] != '"' && s[0] != '[' && s[0] != '{'
    &&& forall|i: int| 0 <= i < s.len() ==> !wire::space(#[trigger] s[i])
}

/// The words of a line from the first one on.
spec fn line_from(words: Seq<WordView>) -> Seq<char>
    decreases words.len(),
{
    if words.len() == 0 {
        Seq::empty()
    } else if words.len() == 1 {
        word_text(words[0])
    } else {
        word_text(words[0]) + seq![' '] + line_from(words.skip(1))
    }
}

proof fn lemma_line_from_push(words: Seq<WordView>, word: WordView)
    requires
        words.len() > 0,
    ensures
        line_from(words.push(word)) == line_from(words) + seq![' '] + word_text(word),
    decreases words.len(),
{
    let all = words.push(word);
    if words.len() == 1 {
        assert(all.skip(1) =~= seq![word]);
        assert(line_from(seq![word]) == word_text(word));
        assert(line_from(all) == word_text(all[0]) + seq![' '] + line_from(all.skip(1)));
    } else {
        assert(all.skip(1) =~= words.skip(1).push(word));
        lemma_line_from_push(words.skip(1), word);
        assert(line_from(all) =~= line_from(words) + seq![' '] + word_text(word));
    }
}

proof fn lemma_line(words: Seq<WordView>)
    ensures
        line(words) == line_from(words),
    decreases words.len(),
{
    if words.len() > 1 {
        lemma_line(words.drop_last());
        lemma_line_from_push(words.drop_last(), words.last());
        assert(words.drop_last().push(words.last()) =~= words);
    }
}

proof fn lemma_escaped_front(s: Seq<char>)
    requires
        s.len() > 0,
    ensures
        json::escaped(s) == json::escape(s[0]) + json::escaped(s.skip(1)),
    decreases s.len(),
{
    if s.len() == 1 {
        assert(s.drop_last() =~= Seq::<char>::empty());
        assert(s.skip(1) =~= Seq::<char>::empty());
        reveal_with_fuel(json::escaped, 2);
        assert(s.last() == s[0]);
        assert(json::escaped(s) =~= json::escape(s[0]));
        assert(json::escape(s[0]) + json::escaped(s.skip(1)) =~= json::escape(s[0]));
    } else {
        lemma_escaped_front(s.drop_last());
        assert(s.drop_last().skip(1) =~= s.skip(1).drop_last());
        assert(json::escaped(s) =~= json::escape(s[0]) + json::escaped(s.skip(1)));
    }
}

/// `part` stands in `s` at `i`, character by character.
spec fn stands(s: Seq<char>, part: Seq<char>, i: int) -> bool {
    &&& 0 <= i
    &&& i + part.len() <= s.len()
    &&& forall|k: int| i <= k < i + part.len() ==> #[trigger] s[k] == part[k - i]
}

proof fn lemma_stands_split(s: Seq<char>, a: Seq<char>, b: Seq<char>, i: int)
    requires
        stands(s, a + b, i),
    ensures
        stands(s, a, i),
        stands(s, b, i + a.len()),
{
    assert forall|k: int| i <= k < i + a.len() implies #[trigger] s[k] == a[k - i] by {
        assert((a + b)[k - i] == a[k - i]);
    }
    assert forall|k: int| i + a.len() <= k < i + a.len() + b.len() implies #[trigger] s[k] == b[k - (
    i + a.len())] by {
        assert((a + b)[k - i] == b[k - i - a.len()]);
    }
}

proof fn lemma_word_end_at(s: Seq<char>, i: int, end: int)
    requires
        0 <= i <= end <= s.len(),
        forall|k: int| i <= k < end ==> !wire::space(#[trigger] s[k]),
        end == s.len() || wire::space(s[end]),
    ensures
        wire::word_end(s, i) == end,
    decreases end - i,
{
    if i < end {
        lemma_word_end_at(s, i + 1, end);
    }
}

proof fn lemma_scan_quoted(s: Seq<char>, i: int, x: Seq<char>)
    requires
        stands(s, json::escaped(x) + seq!['"'], i),
        wire_text(x),
    ensures
        wire::quoted_end(s, i, false) == Ok::<int, ErrorView>(i + json::escaped(x).len() + 1),
    decreases x.len(),
{
    lemma_stands_split(s, json::escaped(x), seq!['"'], i);
    if x.len() == 0 {
        assert(s[i] == '"');
    } else {
        let c = x[0];
        let rest = x.skip(1);
        lemma_escaped_front(x);
        assert(json::escaped(x) + seq!['"'] =~= json::escape(c) + (json::escaped(rest) + seq!['"']));
        lemma_stands_split(s, json::escape(c), json::escaped(rest) + seq!['"'], i);
        assert(wire_text(rest)) by {
            assert forall|k: int| 0 <= k < rest.len() implies (#[trigger] rest[k]) as int >= 32
                || rest[k] == '\n' || rest[k] == '\r' || rest[k] == '\t' by {
                assert(rest[k] == x[k + 1]);
            }
        }
        lemma_scan_quoted(s, i + json::escape(c).len(), rest);
        assert(s[i] == json::escape(c)[0]);
        if json::escape(c).len() == 2 {
            assert(s[i + 1] == json::escape(c)[1]);
            assert(wire::quoted_end(s, i, false) == wire::quoted_end(s, i + 1, true));
            assert(wire::quoted_end(s, i + 1, true) == wire::quoted_end(s, i + 2, false));
        } else {
            assert(wire::quoted_end(s, i, false) == wire::quoted_end(s, i + 1, false));
        }
    }
}

proof fn lemma_hex_digit(n: int)
    requires
        0 <= n < 16,
    ensures
        safe_char(json::hex_digit(n)),
{
}

proof fn lemma_escape(c: char)
    ensures
        json::escape(c).len() == 1 ==> json::escape(c)[0] == c && c != '"' && c != '\\',
        json::escape(c).len() != 1 ==> json::escape(c)[0] == '\\',
        json::escape(c).len() == 1 || json::escape(c).len() == 2 || json::escape(c).len() == 6,
        json::escape(c).len() == 6 ==> forall|k: int|
            2 <= k < 6 ==> safe_char(#[trigger] json::escape(c)[k]),
        forall|k: int|
            0 <= k < json::escape(c).len() ==> #[trigger] json::escape(c)[k] != '\r' && json::escape(
                c,
            )[k] != '\n',
{
    if (c as int) < 32 {
        lemma_hex_digit(c as int / 16);
        lemma_hex_digit(c as int % 16);
    }
}

proof fn lemma_scan_inside(s: Seq<char>, i: int, end: int, stack: Seq<char>)
    requires
        0 <= i <= end <= s.len(),
        forall|k: int| i <= k < end ==> #[trigger] s[k] != '"' && s[k] != '\\',
    ensures
        wire::structured_end(s, i, stack, true, false) == wire::structured_end(
            s,
            end,
            stack,
            true,
            false,
        ),
    decreases end - i,
{
    if i < end {
        lemma_scan_inside(s, i + 1, end, stack);
        assert(s[i] != '"');
    }
}

proof fn lemma_scan_escape(s: Seq<char>, i: int, c: char, stack: Seq<char>)
    requires
        stands(s, json::escape(c), i),
    ensures
        wire::structured_end(s, i, stack, true, false) == wire::structured_end(
            s,
            i + json::escape(c).len(),
            stack,
            true,
            false,
        ),
{
    let e = json::escape(c);
    let end = i + e.len();
    lemma_escape(c);
    assert(s[i] == e[0]);
    if e.len() == 1 {
        lemma_scan_inside(s, i, end, stack);
    } else {
        assert(wire::structured_end(s, i, stack, true, false) == wire::structured_end(
            s,
            i + 1,
            stack,
            true,
            true,
        ));
        assert(wire::structured_end(s, i + 1, stack, true, true) == wire::structured_end(
            s,
            i + 2,
            stack,
            true,
            false,
        ));
        assert forall|k: int| i + 2 <= k < end implies #[trigger] s[k] != '"' && s[k] != '\\' by {
            assert(safe_char(e[k - i]));
        }
        lemma_scan_inside(s, i + 2, end, stack);
    }
}

proof fn lemma_scan_string(s: Seq<char>, i: int, x: Seq<char>, stack: Seq<char>)
    requires
        stands(s, json::escaped(x), i),
    ensures
        wire::structured_end(s, i, stack, true, false) == wire::structured_end(
            s,
            i + json::escaped(x).len(),
            stack,
            true,
            false,
        ),
    decreases x.len(),
{
    if x.len() > 0 {
        let c = x[0];
        let rest = x.skip(1);
        let e = json::escape(c);
        lemma_escaped_front(x);
        lemma_stands_split(s, e, json::escaped(rest), i);
        lemma_scan_escape(s, i, c, stack);
        lemma_scan_string(s, i + e.len(), rest, stack);
    }
}

/// A character that scanning a structured value passes over.
spec fn plain_char(c: char) -> bool {
    c != '"' && c != '[' && c != ']' && c != '{' && c != '}'
}

proof fn lemma_scan_plain(s: Seq<char>, i: int, end: int, stack: Seq<char>)
    requires
        0 <= i <= end <= s.len(),
        forall|k: int| i <= k < end ==> plain_char(#[trigger] s[k]),
    ensures
        wire::structured_end(s, i, stack, false, false) == wire::structured_end(
            s,
            end,
            stack,
            false,
            false,
        ),
    decreases end - i,
{
    if i < end {
        lemma_scan_plain(s, i + 1, end, stack);
        assert(plain_char(s[i]));
    }
}

proof fn lemma_scan_quoted_string(s: Seq<char>, i: int, x: Seq<char>, stack: Seq<char>)
    requires
        stands(s, json::quoted(x), i),
    ensures
        wire::structured_end(s, i, stack, false, false) == wire::structured_end(
            s,
            i + json::quoted(x).len(),
            stack,
            false,
            false,
        ),
{
    lemma_stands_split(s, seq!['"'] + json::escaped(x), seq!['"'], i);
    lemma_stands_split(s, seq!['"'], json::escaped(x), i);
    let n = json::escaped(x).len();
    assert(s[i] == '"');
    assert(s[i + 1 + n] == '"');
    lemma_scan_string(s, i + 1, x, stack);
}

/// The text of an integer holds digits and a minus sign only.
pub proof fn lemma_integer_text(s: Seq<char>)
    requires
        json::integer_text(s),
    ensures
        s.len() > 0,
        forall|i: int| 0 <= i < s.len() ==> (text::is_digit(#[trigger] s[i]) || s[i] == '-'),
{
    if exists|n: nat| n <= u64::MAX && s == #[trigger] text::decimal(n) {
        let n = choose|n: nat| n <= u64::MAX && s == #[trigger] text::decimal(n);
        text::lemma_decimal(n);
    } else {
        let n = choose|n: nat|
            0 < n <= 0x8000_0000_0000_0000 && s == seq!['-'] + #[trigger] text::decimal(n);
        text::lemma_decimal(n);
        assert forall|i: int| 0 <= i < s.len() implies (text::is_digit(#[trigger] s[i]) || s[i]
            == '-') by {
            if i > 0 {
                assert(s[i] == text::decimal(n)[i - 1]);
            }
        }
    }
}

proof fn lemma_scan_value(s: Seq<char>, i: int, value: JsonView, stack: Seq<char>)
    requires
        stands(s, json::json_text(value), i),
        json::ordered_integers(value),
        stack.len() > 0,
    ensures
        wire::structured_end(s, i, stack, false, false) == wire::structured_end(
            s,
            i + json::json_text(value).len(),
            stack,
            false,
            false,
        ),
    decreases value, 0int,
{
    let t = json::json_text(value);
    let end = i + t.len();
    match value {
        JsonView::Text(x) => {
            lemma_scan_quoted_string(s, i, x, stack);
        },
        JsonView::List(items) => {
            let body = json::items_text(items);
            lemma_stands_split(s, seq!['['] + body, seq![']'], i);
            lemma_stands_split(s, seq!['['], body, i);
            assert(s[i] == '[');
            assert(s[end - 1] == ']');
            lemma_scan_items(s, i + 1, items, stack.push('['));
            assert(stack.push('[').drop_last() =~= stack);
        },
        JsonView::Object(members) => {
            let body = json::members_text(members);
            lemma_stands_split(s, seq!['{'] + body, seq!['}'], i);
            lemma_stands_split(s, seq!['{'], body, i);
            assert(s[i] == '{');
            assert(s[end - 1] == '}');
            lemma_scan_members(s, i + 1, members, stack.push('{'));
            assert(stack.push('{').drop_last() =~= stack);
        },
        JsonView::Number(text) => {
            lemma_integer_text(text);
            assert forall|k: int| i <= k < end implies plain_char(#[trigger] s[k]) by {
                assert(text::is_digit(text[k - i]) || text[k - i] == '-');
            }
            lemma_scan_plain(s, i, end, stack);
        },
        _ => {
            assert forall|k: int| i <= k < end implies plain_char(#[trigger] s[k]) by {
                assert(s[k] == t[k - i]);
            }
            lemma_scan_plain(s, i, end, stack);
        },
    }
}

proof fn lemma_scan_items(s: Seq<char>, i: int, items: Seq<JsonView>, stack: Seq<char>)
    requires
        stands(s, json::items_text(items), i),
        json::items_ordered_integers(items),
        stack.len() > 0,
    ensures
        wire::structured_end(s, i, stack, false, false) == wire::structured_end(
            s,
            i + json::items_text(items).len(),
            stack,
            false,
            false,
        ),
    decreases items, 1int,
{
    if items.len() == 0 {
    } else if items.len() == 1 {
        assert(items.last() == items[0]);
        lemma_scan_value(s, i, items[0], stack);
    } else {
        let front = json::items_text(items.drop_last());
        let last = json::json_text(items.last());
        lemma_stands_split(s, front + seq![','], last, i);
        lemma_stands_split(s, front, seq![','], i);
        lemma_scan_items(s, i, items.drop_last(), stack);
        let j = i + front.len();
        assert(s[j] == ',');
        lemma_scan_plain(s, j, j + 1, stack);
        lemma_scan_value(s, j + 1, items.last(), stack);
    }
}

proof fn lemma_scan_members(
    s: Seq<char>,
    i: int,
    members: Seq<(Seq<char>, JsonView)>,
    stack: Seq<char>,
)
    requires
        stands(s, json::members_text(members), i),
        json::members_ordered_integers(members),
        stack.len() > 0,
    ensures
        wire::structured_end(s, i, stack, false, false) == wire::structured_end(
            s,
            i + json::members_text(members).len(),
            stack,
            false,
            false,
        ),
    decreases members, 1int,
{
    if members.len() > 0 {
        let key = json::quoted(members.last().0);
        let value = json::json_text(members.last().1);
        let last = key + seq![':'] + value;
        let j = if members.len() == 1 {
            i
        } else {
            let front = json::members_text(members.drop_last());
            lemma_stands_split(s, front + seq![','], last, i);
            lemma_stands_split(s, front, seq![','], i);
            lemma_scan_members(s, i, members.drop_last(), stack);
            assert(s[i + front.len()] == ',');
            lemma_scan_plain(s, i + front.len() as int, i + front.len() + 1, stack);
            i + front.len() + 1
        };
        lemma_stands_split(s, key + seq![':'], value, j);
        lemma_stands_split(s, key, seq![':'], j);
        lemma_scan_quoted_string(s, j, members.last().0, stack);
        let m = j + key.len();
        assert(s[m] == ':');
        lemma_scan_plain(s, m, m + 1, stack);
        lemma_scan_value(s, m + 1, members.last().1, stack);
    }
}

proof fn lemma_uuid_text(id: Uuid)
    ensures
        bare(uuid_text(id)),
{
    let s = uuid_text(id);
    assert forall|i: int| 0 <= i < 36 implies !wire::space(#[trigger] s[i]) && s[i] != '"' && s[i]
        != '[' && s[i] != '{' by {
        let k = i - hyphens_before(i);
        power::lemma_pow_positive(16, (31 - k) as nat);
        let d = id as int / power::pow(16, (31 - k) as nat) % 16;
        assert(0 <= d < 16);
    }
}

/// A word that is written without quotation marks or brackets around it.
spec fn is_bare_word(word: WordView) -> bool {
    match word {
        WordView::Name(text) => safe(text),
        WordView::Quoted(_) => false,
        WordView::Json(JsonView::Text(_)) => false,
        WordView::Json(JsonView::List(_)) => false,
        WordView::Json(JsonView::Object(_)) => false,
        _ => true,
    }
}

proof fn lemma_bare_word(word: WordView)
    requires
        writable(word),
        is_bare_word(word),
    ensures
        bare(word_text(word)),
{
    let t = word_text(word);
    match word {
        WordView::Name(text) => {
            assert forall|i: int| 0 <= i < t.len() implies !wire::space(#[trigger] t[i]) by {
                assert(safe_char(t[i]));
            }
            assert(safe_char(t[0]));
        },
        WordView::Number(n) => {
            text::lemma_decimal(n);
            assert forall|i: int| 0 <= i < t.len() implies !wire::space(#[trigger] t[i]) by {
                assert(text::is_digit(t[i]));
            }
            assert(text::is_digit(t[0]));
        },
        WordView::Json(JsonView::Number(text)) => {
            lemma_integer_text(text);
            assert forall|i: int| 0 <= i < t.len() implies !wire::space(#[trigger] t[i]) by {
                assert(text::is_digit(t[i]) || t[i] == '-');
            }
            assert(text::is_digit(t[0]) || t[0] == '-');
        },
        WordView::Id(id) => {
            lemma_uuid_text(id);
        },
        _ => {},
    }
}

proof fn lemma_word_at(s: Seq<char>, i: int, word: WordView)
    requires
        writable(word),
        stands(s, word_text(word), i),
        i + word_text(word).len() == s.len() || s[i + word_text(word).len()] == ' ',
        i < s.len() ==> wire::faithful_at(s, i),
    ensures
        word_text(word).len() > 0,
        i < s.len(),
        !wire::space(s[i]),
        wire::word_at(s, i) == Ok::<(TokenView, int), ErrorView>(
            (word_token(word), i + word_text(word).len()),
        ),
{
    let t = word_text(word);
    let end = i + t.len();
    if is_bare_word(word) {
        lemma_bare_word(word);
        assert(s[i] == t[0]);
        assert forall|k: int| i <= k < end implies !wire::space(#[trigger] s[k]) by {
            assert(!wire::space(t[k - i]));
        }
        lemma_word_end_at(s, i, end);
        assert(s.subrange(i, end) =~= t);
    } else {
        match word {
            WordView::Json(JsonView::List(items)) => {
                lemma_scan_top(s, i, word->Json_0);
            },
            WordView::Json(JsonView::Object(members)) => {
                lemma_scan_top(s, i, word->Json_0);
            },
            _ => {
                let x = word_token(word).text;
                assert(t == json::quoted(x));
                assert(t =~= seq!['"'] + (json::escaped(x) + seq!['"']));
                lemma_stands_split(s, seq!['"'], json::escaped(x) + seq!['"'], i);
                assert(s[i] == '"');
                lemma_scan_quoted(s, i + 1, x);
                assert(s.subrange(i, end) =~= json::quoted(x));
            },
        }
    }
}

proof fn lemma_scan_top(s: Seq<char>, i: int, value: JsonView)
    requires
        json::readable(value),
        value is List || value is Object,
        stands(s, json::json_text(value), i),
        i < s.len() ==> wire::faithful_at(s, i),
    ensures
        i < s.len(),
        !wire::space(s[i]),
        wire::word_at(s, i) == Ok::<(TokenView, int), ErrorView>(
            (
                TokenView { text: json::json_text(value), quoted: false },
                i + json::json_text(value).len(),
            ),
        ),
{
    let t = json::json_text(value);
    let end = i + t.len();
    let stack = seq![s[i]];
    match value {
        JsonView::List(items) => {
            let body = json::items_text(items);
            lemma_stands_split(s, seq!['['] + body, seq![']'], i);
            lemma_stands_split(s, seq!['['], body, i);
            assert(s[i] == '[');
            assert(s[end - 1] == ']');
            lemma_scan_items(s, i + 1, items, stack);
        },
        JsonView::Object(members) => {
            let body = json::members_text(members);
            lemma_stands_split(s, seq!['{'] + body, seq!['}'], i);
            lemma_stands_split(s, seq!['{'], body, i);
            assert(s[i] == '{');
            assert(s[end - 1] == '}');
            lemma_scan_members(s, i + 1, members, stack);
        },
        _ => {},
    }
    assert(wire::structured_end(s, i + 1, stack, false, false) == Ok::<int, ErrorView>(end));
    assert(s.subrange(i, end) =~= t);
}

proof fn lemma_scan_line(s: Seq<char>, from: int, i: int, words: Seq<WordView>)
    requires
        0 <= from <= i <= s.len(),
        words.len() > 0,
        forall|k: int| 0 <= k < words.len() ==> writable(#[trigger] words[k]),
        stands(s, line_from(words), i),
        i + line_from(words).len() == s.len(),
        from == i || (from + 1 == i && s[from] == ' '),
        wire::faithful_from(s, from),
    ensures
        wire::words_from(s, from) == Ok::<Seq<TokenView>, ErrorView>(word_tokens(words)),
    decreases words.len(),
{
    let word = words[0];
    let t = word_text(word);
    let rest = words.skip(1);
    assert(writable(word));
    if words.len() > 1 {
        lemma_stands_split(s, t + seq![' '], line_from(rest), i);
        lemma_stands_split(s, t, seq![' '], i);
        assert(s[i + t.len()] == ' ');
    }
    lemma_first_char(word);
    assert(s[i] == t[0]);
    assert(!wire::space(s[i]));
    assert(wire::word_start(s, i) == i);
    assert(wire::word_start(s, from) == i);
    lemma_word_at(s, i, word);
    let end = i + t.len();
    assert(wire::next_word(s, from) == Ok::<Option<(TokenView, int)>, ErrorView>(
        Some((word_token(word), end as int)),
    ));
    if words.len() == 1 {
        assert(wire::words_from(s, end as int) == Ok::<Seq<TokenView>, ErrorView>(Seq::empty()));
        assert(word_tokens(words) =~= seq![word_token(word)] + Seq::<TokenView>::empty());
    } else {
        lemma_scan_line(s, end as int, end + 1, rest);
        assert(word_tokens(words) =~= seq![word_token(word)] + word_tokens(rest));
    }
}

proof fn lemma_first_char(word: WordView)
    requires
        writable(word),
    ensures
        word_text(word).len() > 0,
        !wire::space(word_text(word)[0]),
{
    if is_bare_word(word) {
        lemma_bare_word(word);
    }
}

/// No line break stands in a text.
spec fn one_line(s: Seq<char>) -> bool {
    forall|i: int| 0 <= i < s.len() ==> #[trigger] s[i] != '\r' && s[i] != '\n'
}

proof fn lemma_one_line_concat(a: Seq<char>, b: Seq<char>)
    requires
        one_line(a),
        one_line(b),
    ensures
        one_line(a + b),
{
    assert forall|i: int| 0 <= i < (a + b).len() implies #[trigger] (a + b)[i] != '\r' && (a + b)[i]
        != '\n' by {
        if i < a.len() {
            assert((a + b)[i] == a[i]);
        } else {
            assert((a + b)[i] == b[i - a.len()]);
        }
    }
}

proof fn lemma_one_line_escaped(x: Seq<char>)
    ensures
        one_line(json::escaped(x)),
    decreases x.len(),
{
    if x.len() > 0 {
        lemma_one_line_escaped(x.drop_last());
        lemma_escape(x.last());
        assert(one_line(json::escape(x.last())));
        lemma_one_line_concat(json::escaped(x.drop_last()), json::escape(x.last()));
    }
}

proof fn lemma_one_line_quoted(x: Seq<char>)
    ensures
        one_line(json::quoted(x)),
{
    lemma_one_line_escaped(x);
    lemma_one_line_concat(seq!['"'], json::escaped(x));
    lemma_one_line_concat(seq!['"'] + json::escaped(x), seq!['"']);
}

proof fn lemma_one_line_value(value: JsonView)
    requires
        json::ordered_integers(value),
    ensures
        one_line(json::json_text(value)),
    decreases value, 0int,
{
    match value {
        JsonView::Text(x) => {
            lemma_one_line_quoted(x);
        },
        JsonView::Number(text) => {
            lemma_integer_text(text);
            assert forall|i: int| 0 <= i < text.len() implies #[trigger] text[i] != '\r' && text[i]
                != '\n' by {
                assert(text::is_digit(text[i]) || text[i] == '-');
            }
        },
        JsonView::List(items) => {
            lemma_one_line_items(items);
            lemma_one_line_concat(seq!['['], json::items_text(items));
            lemma_one_line_concat(seq!['['] + json::items_text(items), seq![']']);
        },
        JsonView::Object(members) => {
            lemma_one_line_members(members);
            lemma_one_line_concat(seq!['{'], json::members_text(members));
            lemma_one_line_concat(seq!['{'] + json::members_text(members), seq!['}']);
        },
        _ => {},
    }
}

proof fn lemma_one_line_items(items: Seq<JsonView>)
    requires
        json::items_ordered_integers(items),
    ensures
        one_line(json::items_text(items)),
    decreases items, 1int,
{
    if items.len() == 1 {
        assert(items.last() == items[0]);
        lemma_one_line_value(items[0]);
    } else if items.len() > 1 {
        let front = json::items_text(items.drop_last());
        lemma_one_line_items(items.drop_last());
        lemma_one_line_value(items.last());
        lemma_one_line_concat(front, seq![',']);
        lemma_one_line_concat(front + seq![','], json::json_text(items.last()));
    }
}

proof fn lemma_one_line_members(members: Seq<(Seq<char>, JsonView)>)
    requires
        json::members_ordered_integers(members),
    ensures
        one_line(json::members_text(members)),
    decreases members, 1int,
{
    if members.len() > 0 {
        let key = json::quoted(members.last().0);
        let value = json::json_text(members.last().1);
        lemma_one_line_quoted(members.last().0);
        lemma_one_line_value(members.last().1);
        lemma_one_line_concat(key, seq![':']);
        lemma_one_line_concat(key + seq![':'], value);
        if members.len() > 1 {
            let front = json::members_text(members.drop_last());
            lemma_one_line_members(members.drop_last());
            lemma_one_line_concat(front, seq![',']);
            lemma_one_line_concat(front + seq![','], key + seq![':'] + value);
        }
    }
}

proof fn lemma_one_line(words: Seq<WordView>)
    requires
        forall|k: int| 0 <= k < words.len() ==> writable(#[trigger] words[k]),
    ensures
        one_line(line(words)),
    decreases words.len(),
{
    if words.len() > 0 {
        let word = words.last();
        assert(writable(words[words.len() - 1]));
        assert(one_line(word_text(word))) by {
            let t = word_text(word);
            if is_bare_word(word) {
                lemma_bare_word(word);
                assert forall|i: int| 0 <= i < t.len() implies #[trigger] t[i] != '\r' && t[i]
                    != '\n' by {
                    assert(!wire::space(t[i]));
                }
            } else {
                match word {
                    WordView::Json(value) => {
                        lemma_one_line_value(value);
                    },
                    WordView::Name(x) => {
                        lemma_one_line_quoted(x);
                    },
                    WordView::Quoted(x) => {
                        lemma_one_line_quoted(x);
                    },
                    _ => {},
                }
            }
        }
        if words.len() > 1 {
            lemma_one_line(words.drop_last());
            lemma_one_line_concat(line(words.drop_last()), seq![' ']);
            lemma_one_line_concat(line(words.drop_last()) + seq![' '], word_text(word));
        }
    }
}

/// A line of writable words is scanned as those words, where it fits into a
/// frame and reading gives back what was written.
pub proof fn scan_after_write(words: Seq<WordView>)
    requires
        words.len() > 0,
        forall|k: int| 0 <= k < words.len() ==> writable(#[trigger] words[k]),
        wire::byte_length(line(words)) <= wire::MAX_FRAME_BYTES,
        wire::faithful_from(line(words), 0),
    ensures
        wire::frame_words(line(words)) == Ok::<Seq<TokenView>, ErrorView>(word_tokens(words)),
{
    let s = line(words);
    lemma_line(words);
    scan_conditions(words);
    lemma_scan_line(s, 0, 0, words);
}

/// A line of writable words is not empty and holds no line break.
pub proof fn scan_conditions(words: Seq<WordView>)
    requires
        words.len() > 0,
        forall|k: int| 0 <= k < words.len() ==> writable(#[trigger] words[k]),
    ensures
        line(words).len() > 0,
        !wire::has_line_break(line(words)),
{
    lemma_line(words);
    lemma_one_line(words);
    lemma_first_char(words[0]);
    assert(words.len() > 1 ==> line(words).len() >= word_text(words[0]).len());
}

/// A line that is being written.
pub struct Line {
    pub text: String,
    pub words: Ghost<Seq<WordView>>,
}

impl Line {
    /// The text is that of the words.
    pub open spec fn ok(&self) -> bool {
        self.words@.len() > 0 && self.text@ == line(self.words@)
    }

    /// A line of one reserved word.
    pub fn start(keyword: &str) -> (r: Self)
        ensures
            r.ok(),
            r.words@ == seq![WordView::Keyword(keyword@)],
    {
        let ghost first = seq![WordView::Keyword(keyword@)];
        Line { text: keyword.to_owned(), words: Ghost(first) }
    }

    fn add(&mut self, text: &str, word: Ghost<WordView>)
        requires
            old(self).ok(),
            text@ == word_text(word@),
        ensures
            final(self).ok(),
            final(self).words@ == old(self).words@.push(word@),
    {
        self.text.push(' ');
        self.text.append(text);
        let ghost before = self.words@;
        self.words = Ghost(before.push(word@));
        proof {
            assert(self.words@.drop_last() =~= before);
            assert(self.text@ =~= line(before) + seq![' '] + word_text(word@));
        }
    }

    /// Adds a reserved word.
    pub fn keyword(&mut self, keyword: &str)
        requires
            old(self).ok(),
        ensures
            final(self).ok(),
            final(self).words@ == old(self).words@.push(WordView::Keyword(keyword@)),
    {
        self.add(keyword, Ghost(WordView::Keyword(keyword@)));
    }

    /// Adds a name, quoted where it has to be.
    pub fn name(&mut self, name: &str)
        requires
            old(self).ok(),
        ensures
            final(self).ok(),
            final(self).words@ == old(self).words@.push(WordView::Name(name@)),
    {
        let text = quote(name);
        self.add(text.as_str(), Ghost(WordView::Name(name@)));
    }

    /// Adds the key of a batch, quoted also where it reads like a reserved word.
    pub fn batch_key(&mut self, key: &str)
        requires
            old(self).ok(),
        ensures
            final(self).ok(),
            final(self).words@ == old(self).words@.push(batch_key(key@)),
    {
        if text::same(key, "EX") {
            let text = json::quote_text(key);
            self.add(text.as_str(), Ghost(WordView::Quoted(key@)));
        } else {
            self.name(key);
        }
    }

    /// Adds a JSON value.
    pub fn json(&mut self, value: &Value)
        requires
            old(self).ok(),
        ensures
            final(self).ok(),
            final(self).words@ == old(self).words@.push(WordView::Json(value@)),
    {
        let text = json::render(value);
        self.add(text.as_str(), Ghost(WordView::Json(value@)));
    }

    /// Adds an unsigned integer.
    pub fn number(&mut self, n: u64)
        requires
            old(self).ok(),
        ensures
            final(self).ok(),
            final(self).words@ == old(self).words@.push(WordView::Number(n as nat)),
    {
        let text = text::number(n as u128);
        self.add(text.as_str(), Ghost(WordView::Number(n as nat)));
    }

    /// Adds an identifier.
    pub fn id(&mut self, id: Uuid)
        requires
            old(self).ok(),
        ensures
            final(self).ok(),
            final(self).words@ == old(self).words@.push(WordView::Id(id)),
    {
        let text = write_uuid(id);
        self.add(text.as_str(), Ghost(WordView::Id(id)));
    }
}

/// The word of a batch's key.
pub open spec fn batch_key(key: Seq<char>) -> WordView {
    if key == "EX"@ {
        WordView::Quoted(key)
    } else {
        WordView::Name(key)
    }
}

fn is_safe(value: &str) -> (r: bool)
    ensures
        r == safe(value@),
{
    let chars = text::chars_of(value);
    let mut i: usize = 0;
    while i < chars.len()
        invariant
            i <= chars.len(),
            forall|j: int| 0 <= j < i ==> safe_char(#[trigger] chars@[j]),
            chars@ == value@,
        decreases chars.len() - i,
    {
        let c = chars[i];
        if !(('a' <= c && c <= 'z') || ('A' <= c && c <= 'Z') || ('0' <= c && c <= '9') || c == '_'
            || c == '.' || c == '/' || c == ':' || c == '*' || c == '~' || c == '$' || c == '-') {
            assert(!safe_char(chars@[i as int]));
            return false;
        }
        i += 1;
    }
    chars.len() > 0
}

/// A name as a word: as it is where every character allows it, else quoted.
pub fn quote(value: &str) -> (r: String)
    ensures
        r@ == word_text(WordView::Name(value@)),
{
    if is_safe(value) {
        value.to_owned()
    } else {
        json::quote_text(value)
    }
}

} // verus!
