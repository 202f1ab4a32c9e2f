//! The words of a protocol frame: how they are written and how they are
//! scanned.

use crate::error::{protocol, Error, ErrorView};
use crate::json::{self, JsonView};
use crate::text;
use vstd::prelude::*;

verus! {

/// The largest frame, in bytes.
pub const MAX_FRAME_BYTES: usize = 1_048_576;

/// White space between the words of a frame.
pub open spec fn space(c: char) -> bool {
    c == ' ' || c == '\t' || c == '\n' || c as int == 12 || c == '\r'
}

/// A word of a frame: its text, and whether it stood between quotation marks.
#[derive(Debug)]
pub struct Token {
    pub text: String,
    pub quoted: bool,
}

/// A [`Token`] with its text as a character sequence.
#[verifier::ext_equal]
pub struct TokenView {
    pub text: Seq<char>,
    pub quoted: bool,
}

impl View for Token {
    type V = TokenView;

    open spec fn view(&self) -> TokenView {
        TokenView { text: self.text@, quoted: self.quoted }
    }
}

/// The first position from `i` on that is not white space.
pub open spec fn word_start(s: Seq<char>, i: int) -> int
    decreases s.len() - i,
{
    if 0 <= i < s.len() && space(s[i]) {
        word_start(s, i + 1)
    } else {
        i
    }
}

/// The first position from `i` on that is white space, or the end.
pub open spec fn word_end(s: Seq<char>, i: int) -> int
    decreases s.len() - i,
{
    if 0 <= i < s.len() && !space(s[i]) {
        word_end(s, i + 1)
    } else {
        i
    }
}

/// The position after the quotation mark that closes a quoted word, scanning
/// from `i`; `escaped` when a backslash stands before `i`.
pub open spec fn quoted_end(s: Seq<char>, i: int, escaped: bool) -> Result<int, ErrorView>
    decreases s.len() - i,
{
    if i < 0 || i >= s.len() {
        Err(ErrorView::Protocol("unterminated quoted token"@))
    } else if escaped {
        if s[i] == '"' || s[i] == '\\' || s[i] == 'n' || s[i] == 'r' || s[i] == 't' {
            quoted_end(s, i + 1, false)
        } else {
            Err(ErrorView::Protocol("invalid quoted escape"@))
        }
    } else if s[i] == '\\' {
        quoted_end(s, i + 1, true)
    } else if s[i] == '"' {
        Ok(i + 1)
    } else {
        quoted_end(s, i + 1, false)
    }
}

/// The position after the bracket that closes a structured value, scanning from
/// `i` with the brackets of `stack` open; `quoted` inside a string, `escaped`
/// after a backslash in it.
pub open spec fn structured_end(
    s: Seq<char>,
    i: int,
    stack: Seq<char>,
    quoted: bool,
    escaped: bool,
) -> Result<int, ErrorView>
    decreases s.len() - i,
{
    if i < 0 || i >= s.len() {
        Err(ErrorView::Protocol("incomplete structured value"@))
    } else if quoted {
        if escaped {
            structured_end(s, i + 1, stack, true, false)
        } else if s[i] == '\\' {
            structured_end(s, i + 1, stack, true, true)
        } else {
            structured_end(s, i + 1, stack, s[i] != '"', false)
        }
    } else if s[i] == '"' {
        structured_end(s, i + 1, stack, true, false)
    } else if s[i] == '[' || s[i] == '{' {
        structured_end(s, i + 1, stack.push(s[i]), false, false)
    } else if s[i] == ']' || s[i] == '}' {
        let open = if s[i] == ']' {
            '['
        } else {
            '{'
        };
        if stack.len() == 0 || stack.last() != open {
            Err(ErrorView::Protocol("unbalanced structured value"@))
        } else if stack.len() == 1 {
            Ok(i + 1)
        } else {
            structured_end(s, i + 1, stack.drop_last(), false, false)
        }
    } else {
        structured_end(s, i + 1, stack, false, false)
    }
}

/// The word that starts at `start`, and the position after it.
pub open spec fn word_at(s: Seq<char>, start: int) -> Result<(TokenView, int), ErrorView> {
    if s[start] == '"' {
        match quoted_end(s, start + 1, false) {
            Err(error) => Err(error),
            Ok(end) => match json::unquoted(s.subrange(start, end)) {
                Some(text) => Ok((TokenView { text, quoted: true }, end)),
                None => Err(ErrorView::Protocol("invalid quoted token"@)),
            },
        }
    } else if s[start] == '[' || s[start] == '{' {
        match structured_end(s, start + 1, seq![s[start]], false, false) {
            Err(error) => Err(error),
            Ok(end) => if json::read(s.subrange(start, end)) is Some {
                Ok((TokenView { text: s.subrange(start, end), quoted: false }, end))
            } else {
                Err(ErrorView::Protocol("invalid structured value"@))
            },
        }
    } else {
        let end = word_end(s, start);
        Ok((TokenView { text: s.subrange(start, end), quoted: false }, end))
    }
}

/// The next word from `i` on and the position after it, if there is one.
pub open spec fn next_word(s: Seq<char>, i: int) -> Result<Option<(TokenView, int)>, ErrorView> {
    let start = word_start(s, i);
    if start >= s.len() {
        Ok(None)
    } else {
        match word_at(s, start) {
            Ok(word) => Ok(Some(word)),
            Err(error) => Err(error),
        }
    }
}

pub proof fn lemma_word_start(s: Seq<char>, i: int)
    requires
        0 <= i <= s.len(),
    ensures
        i <= word_start(s, i) <= s.len(),
        word_start(s, i) < s.len() ==> !space(s[word_start(s, i)]),
    decreases s.len() - i,
{
    if i < s.len() && space(s[i]) {
        lemma_word_start(s, i + 1);
    }
}

pub proof fn lemma_word_end(s: Seq<char>, i: int)
    requires
        0 <= i <= s.len(),
    ensures
        i <= word_end(s, i) <= s.len(),
    decreases s.len() - i,
{
    if i < s.len() && !space(s[i]) {
        lemma_word_end(s, i + 1);
    }
}

pub proof fn lemma_quoted_end(s: Seq<char>, i: int, escaped: bool)
    requires
        0 <= i,
    ensures
        quoted_end(s, i, escaped) matches Ok(end) ==> i < end <= s.len(),
    decreases s.len() - i,
{
    if i < s.len() {
        lemma_quoted_end(s, i + 1, false);
        lemma_quoted_end(s, i + 1, true);
    }
}

pub proof fn lemma_structured_end(
    s: Seq<char>,
    i: int,
    stack: Seq<char>,
    quoted: bool,
    escaped: bool,
)
    requires
        0 <= i,
    ensures
        structured_end(s, i, stack, quoted, escaped) matches Ok(end) ==> i < end <= s.len(),
    decreases s.len() - i,
{
    if i < s.len() {
        if quoted {
            if escaped {
                lemma_structured_end(s, i + 1, stack, true, false);
            } else if s[i] == '\\' {
                lemma_structured_end(s, i + 1, stack, true, true);
            } else {
                lemma_structured_end(s, i + 1, stack, s[i] != '"', false);
            }
        } else if s[i] == '"' {
            lemma_structured_end(s, i + 1, stack, true, false);
        } else if s[i] == '[' || s[i] == '{' {
            lemma_structured_end(s, i + 1, stack.push(s[i]), false, false);
        } else if s[i] == ']' || s[i] == '}' {
            lemma_structured_end(s, i + 1, stack.drop_last(), false, false);
        } else {
            lemma_structured_end(s, i + 1, stack, false, false);
        }
    }
}

/// A scanned word ends after the position from which it was scanned, inside
/// the frame.
pub proof fn lemma_next_word(s: Seq<char>, i: int)
    requires
        0 <= i <= s.len(),
    ensures
        next_word(s, i) matches Ok(Some((_, end))) ==> i < end <= s.len(),
{
    lemma_word_start(s, i);
    let start = word_start(s, i);
    if start < s.len() {
        lemma_quoted_end(s, start + 1, false);
        lemma_structured_end(s, start + 1, seq![s[start]], false, false);
        lemma_word_end(s, start + 1);
    }
}

/// The words of a frame from `i` on.
pub open spec fn words_from(s: Seq<char>, i: int) -> Result<Seq<TokenView>, ErrorView>
    decreases s.len() - i,
{
    if i < 0 || i > s.len() {
        Ok(Seq::empty())
    } else {
        match next_word(s, i) {
            Err(error) => Err(error),
            Ok(None) => Ok(Seq::empty()),
            Ok(Some((token, end))) => {
                proof {
                    lemma_next_word(s, i);
                }
                match words_from(s, end) {
                    Err(error) => Err(error),
                    Ok(rest) => Ok(seq![token] + rest),
                }
            },
        }
    }
}

/// The bytes of a text.
pub open spec fn byte_length(s: Seq<char>) -> nat {
    vstd::utf8::encode_utf8(s).len()
}

/// A line break stands in the text.
pub open spec fn has_line_break(s: Seq<char>) -> bool {
    exists|i: int| 0 <= i < s.len() && (#[trigger] s[i] == '\r' || s[i] == '\n')
}

/// The words of a frame.
pub open spec fn frame_words(s: Seq<char>) -> Result<Seq<TokenView>, ErrorView> {
    if s.len() == 0 || byte_length(s) > MAX_FRAME_BYTES {
        Err(ErrorView::Protocol("frame is empty or too large"@))
    } else if has_line_break(s) {
        Err(ErrorView::Protocol("frame contains a line break"@))
    } else {
        match words_from(s, 0) {
            Err(error) => Err(error),
            Ok(words) => if words.len() == 0 {
                Err(ErrorView::Protocol("empty frame"@))
            } else {
                Ok(words)
            },
        }
    }
}

/// Reading what was written gives it back, at the word that starts at `start`.
pub open spec fn faithful_at(s: Seq<char>, start: int) -> bool {
    if s[start] == '"' {
        quoted_end(s, start + 1, false) matches Ok(end) ==> forall|x: Seq<char>|
            s.subrange(start, end) == #[trigger] json::quoted(x) ==> json::unquoted(
                s.subrange(start, end),
            ) == Some(x)
    } else if s[start] == '[' || s[start] == '{' {
        structured_end(s, start + 1, seq![s[start]], false, false) matches Ok(end) ==> forall|
            value: JsonView,
        |
            #[trigger] json::readable(value) && s.subrange(start, end) == json::json_text(value)
                ==> json::read(s.subrange(start, end)) == Some(value)
    } else {
        true
    }
}

/// Reading what was written gives it back, at every word from `i` on that is
/// scanned.
pub open spec fn faithful_from(s: Seq<char>, i: int) -> bool
    decreases s.len() - i,
{
    if i < 0 || i > s.len() {
        true
    } else {
        let start = word_start(s, i);
        &&& start < s.len() ==> faithful_at(s, start)
        &&& match next_word(s, i) {
            Ok(Some((_, end))) => {
                proof {
                    lemma_next_word(s, i);
                }
                faithful_from(s, end)
            },
            _ => true,
        }
    }
}

fn is_space(c: char) -> (r: bool)
    ensures
        r == space(c),
{
    let n: u32 = c as u32;
    c == ' ' || c == '\t' || c == '\n' || n == 12 || c == '\r'
}

fn scan_quoted(input: &Vec<char>, start: usize) -> (r: Result<(Token, usize), Error>)
    requires
        start < input.len(),
        input@[start as int] == '"',
    ensures
        match r {
            Ok((token, end)) => word_at(input@, start as int) == Ok::<
                (TokenView, int),
                ErrorView,
            >((token@, end as int)) && end <= input.len(),
            Err(error) => word_at(input@, start as int) == Err::<(TokenView, int), ErrorView>(
                error@,
            ),
        },
        faithful_at(input@, start as int),
{
    let mut i: usize = start + 1;
    let mut escaped = false;
    while i < input.len()
        invariant
            start < i <= input.len(),
            input@[start as int] == '"',
            quoted_end(input@, start + 1, false) == quoted_end(input@, i as int, escaped),
        decreases input.len() - i,
    {
        let c = input[i];
        if escaped {
            if !(c == '"' || c == '\\' || c == 'n' || c == 'r' || c == 't') {
                return Err(protocol("invalid quoted escape"));
            }
            escaped = false;
        } else if c == '\\' {
            escaped = true;
        } else if c == '"' {
            let raw = text::slice(input, start, i + 1);
            return match json::unquote_text(raw.as_str()) {
                Some(text) => Ok((Token { text, quoted: true }, i + 1)),
                None => Err(protocol("invalid quoted token")),
            };
        }
        i += 1;
    }
    Err(protocol("unterminated quoted token"))
}

fn scan_structured(input: &Vec<char>, start: usize) -> (r: Result<(Token, usize), Error>)
    requires
        start < input.len(),
        input@[start as int] == '[' || input@[start as int] == '{',
    ensures
        match r {
            Ok((token, end)) => word_at(input@, start as int) == Ok::<
                (TokenView, int),
                ErrorView,
            >((token@, end as int)) && end <= input.len(),
            Err(error) => word_at(input@, start as int) == Err::<(TokenView, int), ErrorView>(
                error@,
            ),
        },
        faithful_at(input@, start as int),
{
    let first = input[start];
    let mut i: usize = start + 1;
    let mut stack: Vec<char> = vec![first];
    let mut quoted = false;
    let mut escaped = false;
    assert(stack@ =~= seq![first]);
    while i < input.len()
        invariant
            start < i <= input.len(),
            first == input@[start as int],
            first == '[' || first == '{',
            stack.len() > 0,
            escaped ==> quoted,
            structured_end(input@, start + 1, seq![first], false, false) == structured_end(
                input@,
                i as int,
                stack@,
                quoted,
                escaped,
            ),
        decreases input.len() - i,
    {
        let c = input[i];
        if quoted {
            if escaped {
                escaped = false;
            } else if c == '\\' {
                escaped = true;
            } else if c == '"' {
                quoted = false;
            }
        } else if c == '"' {
            quoted = true;
        } else if c == '[' || c == '{' {
            stack.push(c);
        } else if c == ']' || c == '}' {
            let expected = if c == ']' {
                '['
            } else {
                '{'
            };
            let ghost before = stack@;
            let open = stack.pop();
            assert(stack@ =~= before.drop_last());
            if open != Some(expected) {
                return Err(protocol("unbalanced structured value"));
            }
            if stack.len() == 0 {
                let token = text::slice(input, start, i + 1);
                return match json::parse(token.as_str()) {
                    Some(_) => Ok((Token { text: token, quoted: false }, i + 1)),
                    None => Err(protocol("invalid structured value")),
                };
            }
        }
        i += 1;
    }
    Err(protocol("incomplete structured value"))
}

fn scan_bare(input: &Vec<char>, start: usize) -> (r: (Token, usize))
    requires
        start < input.len(),
        !space(input@[start as int]),
    ensures
        r.1 == word_end(input@, start as int),
        r.0@ == (TokenView {
            text: input@.subrange(start as int, r.1 as int),
            quoted: false,
        }),
        start < r.1 <= input.len(),
{
    let mut i: usize = start;
    while i < input.len() && !is_space(input[i])
        invariant
            start <= i <= input.len(),
            word_end(input@, start as int) == word_end(input@, i as int),
            start < input.len(),
            !space(input@[start as int]),
        decreases input.len() - i,
    {
        i += 1;
    }
    (Token { text: text::slice(input, start, i), quoted: false }, i)
}

/// The words of a frame.
pub fn tokens(frame: &str) -> (r: Result<Vec<Token>, Error>)
    ensures
        match r {
            Ok(words) => frame_words(frame@) == Ok::<Seq<TokenView>, ErrorView>(
                crate::error::views(words@),
            ) && words.len() > 0,
            Err(error) => frame_words(frame@) == Err::<Seq<TokenView>, ErrorView>(error@),
        },
        frame@.len() > 0 && byte_length(frame@) <= MAX_FRAME_BYTES && !has_line_break(frame@)
            ==> faithful_from(frame@, 0),
{
    let input = text::chars_of(frame);
    if input.len() == 0 || frame.as_bytes().len() > MAX_FRAME_BYTES {
        return Err(protocol("frame is empty or too large"));
    }
    let mut k: usize = 0;
    while k < input.len()
        invariant
            k <= input.len(),
            frame@ == input@,
            frame@.len() > 0,
            byte_length(frame@) <= MAX_FRAME_BYTES,
            forall|j: int| 0 <= j < k ==> #[trigger] input@[j] != '\r' && input@[j] != '\n',
        decreases input.len() - k,
    {
        if input[k] == '\r' || input[k] == '\n' {
            assert(has_line_break(frame@));
            return Err(protocol("frame contains a line break"));
        }
        k += 1;
    }
    let mut out: Vec<Token> = Vec::new();
    let mut index: usize = 0;
    assert(crate::error::views(out@) =~= Seq::<TokenView>::empty());
    assert(words_from(frame@, 0) matches Ok(rest) ==> crate::error::views(out@) + rest =~= rest);
    loop
        invariant
            index <= input.len(),
            frame@ == input@,
            frame@.len() > 0,
            byte_length(frame@) <= MAX_FRAME_BYTES,
            !has_line_break(frame@),
            match words_from(frame@, index as int) {
                Ok(rest) => words_from(frame@, 0) == Ok::<Seq<TokenView>, ErrorView>(
                    crate::error::views(out@) + rest,
                ),
                Err(error) => words_from(frame@, 0) == Err::<Seq<TokenView>, ErrorView>(error),
            },
            faithful_from(frame@, index as int) ==> faithful_from(frame@, 0),
        decreases input.len() - index,
    {
        let ghost from = index as int;
        proof {
            lemma_word_start(frame@, from);
            lemma_next_word(frame@, from);
        }
        let mut start: usize = index;
        while start < input.len() && is_space(input[start])
            invariant
                index <= start <= input.len(),
                word_start(input@, index as int) == word_start(input@, start as int),
            decreases input.len() - start,
        {
            start += 1;
        }
        if start == input.len() {
            assert(crate::error::views(out@) + Seq::<TokenView>::empty() =~= crate::error::views(
                out@,
            ));
            if out.len() == 0 {
                return Err(protocol("empty frame"));
            }
            return Ok(out);
        }
        let first = input[start];
        let scanned = if first == '"' {
            scan_quoted(&input, start)
        } else if first == '[' || first == '{' {
            scan_structured(&input, start)
        } else {
            Ok(scan_bare(&input, start))
        };
        assert(faithful_at(frame@, start as int));
        match scanned {
            Ok((token, end)) => {
                let ghost before = crate::error::views(out@);
                out.push(token);
                proof {
                    assert(crate::error::views(out@) =~= before.push(token@));
                    assert(next_word(frame@, from) == Ok::<Option<(TokenView, int)>, ErrorView>(
                        Some((token@, end as int)),
                    ));
                    if let Ok(rest) = words_from(frame@, end as int) {
                        assert(before + (seq![token@] + rest) =~= before.push(token@) + rest);
                    }
                }
                index = end;
            },
            Err(error) => {
                assert(next_word(frame@, from) is Err);
                return Err(error);
            },
        }
    }
}

} // verus!
