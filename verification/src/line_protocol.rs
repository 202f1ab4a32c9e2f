//! Canonical human-readable protocol codec.
//!
//! Frames are deliberately kept independent from transports. TCP callers add
//! a newline and WebSocket callers send the returned string as one text frame.

use crate::error::{protocol, Error, ErrorView};
use crate::json::{self, JsonView, Value};
use crate::protocol::{
    Command, CommandView, Response, ResponseView, SetEntry, Stats, Uuid,
};
use crate::route::{Key, KeyPattern, NamespaceContext, NamespacePattern};
use crate::text;
use crate::wire::{self, Token, TokenView};
use crate::words::{self, Line, WordView};
use vstd::prelude::*;

pub use crate::line_callback::{
    callback_request_id, decode_server_command, decode_server_result, encode_server_command,
    encode_server_result,
};

verus! {

/// A protocol error as a mathematical value.
pub open spec fn refused<T>(message: Seq<char>) -> Result<T, ErrorView> {
    Err(ErrorView::Protocol(message))
}

/// The words as mathematical values.
pub open spec fn token_views(tokens: Seq<Token>) -> Seq<TokenView> {
    crate::error::views(tokens)
}

/// The text of argument `i`.
pub open spec fn arg(t: Seq<TokenView>, i: int) -> Result<Seq<char>, ErrorView> {
    if 0 <= i < t.len() {
        Ok(t[i].text)
    } else {
        refused("missing argument"@)
    }
}

/// Argument `i` is the reserved word `name`, not a quoted text.
pub open spec fn is_keyword(t: Seq<TokenView>, i: int, name: Seq<char>) -> bool {
    0 <= i < t.len() && !t[i].quoted && t[i].text == name
}

/// Argument `i` has to be the reserved word `name`.
pub open spec fn expect_keyword(t: Seq<TokenView>, i: int, name: Seq<char>) -> Result<
    (),
    ErrorView,
> {
    if !(0 <= i < t.len()) {
        refused("missing argument"@)
    } else if is_keyword(t, i, name) {
        Ok(())
    } else {
        refused("expected "@ + name)
    }
}

/// Argument `i` as an unsigned integer of 64 bits.
pub open spec fn arg_number(t: Seq<TokenView>, i: int) -> Result<u64, ErrorView> {
    match arg(t, i) {
        Err(error) => Err(error),
        Ok(word) => match text::unsigned_value(word, u64::MAX as nat) {
            Some(n) => Ok(n as u64),
            None => refused("invalid unsigned integer"@),
        },
    }
}

/// Argument `i` as an identifier in its canonical text.
pub open spec fn arg_uuid(t: Seq<TokenView>, i: int) -> Result<Uuid, ErrorView> {
    match arg(t, i) {
        Err(error) => Err(error),
        Ok(word) => match words::uuid_value(word) {
            None => refused("invalid UUID"@),
            Some(id) => if words::uuid_text(id) == word {
                Ok(id)
            } else {
                refused("UUID must use canonical lowercase encoding"@)
            },
        },
    }
}

/// Argument `i` as an identifier that must not be empty.
pub open spec fn arg_name(t: Seq<TokenView>, i: int, field: Seq<char>) -> Result<
    Seq<char>,
    ErrorView,
> {
    match arg(t, i) {
        Err(error) => Err(error),
        Ok(word) => if word.len() == 0 {
            Err(ErrorView::EmptyIdentifier(field))
        } else {
            Ok(word)
        },
    }
}

/// A word as a JSON value.
pub open spec fn arg_value(token: TokenView) -> Result<JsonView, ErrorView> {
    if token.quoted {
        Ok(JsonView::Text(token.text))
    } else {
        match json::read(token.text) {
            Some(value) => Ok(value),
            None => refused("invalid value literal"@),
        }
    }
}

/// The time to live at the end of a frame, if argument `i` announces one.
pub open spec fn arg_ttl(t: Seq<TokenView>, i: int) -> Result<Option<u64>, ErrorView> {
    if i == t.len() {
        Ok(None)
    } else {
        match expect_keyword(t, i, "EX"@) {
            Err(error) => Err(error),
            Ok(_) => match arg_number(t, i + 1) {
                Err(error) => Err(error),
                Ok(n) => Ok(Some(n)),
            },
        }
    }
}

/// The option `name` at argument `i`, and the argument after it.
pub open spec fn arg_option(t: Seq<TokenView>, i: int, name: Seq<char>) -> Result<
    (Option<u64>, int),
    ErrorView,
> {
    if is_keyword(t, i, name) {
        match arg_number(t, i + 1) {
            Err(error) => Err(error),
            Ok(n) => Ok((Some(n), i + 2)),
        }
    } else {
        Ok((None, i))
    }
}

/// The keys and values of a batch from argument `i` up to `end`.
pub open spec fn arg_entries(t: Seq<TokenView>, i: int, end: int) -> Result<
    Seq<(Seq<char>, JsonView)>,
    ErrorView,
>
    decreases end - i + 1,
{
    if i >= end {
        Ok(Seq::empty())
    } else {
        match arg_name(t, i, "key"@) {
            Err(error) => Err(error),
            Ok(key) => match arg_value(t[i + 1]) {
                Err(error) => Err(error),
                Ok(value) => match arg_entries(t, i + 2, end) {
                    Err(error) => Err(error),
                    Ok(rest) => Ok(seq![(key, value)] + rest),
                },
            },
        }
    }
}

/// Where the entries of a batch end: before its time to live.
pub open spec fn batch_end(t: Seq<TokenView>) -> int {
    if is_keyword(t, t.len() - 2, "EX"@) {
        t.len() - 2
    } else {
        t.len() as int
    }
}

/// Reading a word as a value gives back the value that was written.
pub open spec fn faithful_value(token: TokenView) -> bool {
    !token.quoted ==> forall|value: JsonView|
        #[trigger] json::readable(value) && token.text == json::json_text(value) ==> json::read(
            token.text,
        ) == Some(value)
}

/// Reading a word as an identifier gives back the identifier that was written.
pub open spec fn faithful_id(token: TokenView) -> bool {
    forall|id: Uuid|
        token.text == #[trigger] words::uuid_text(id) ==> words::uuid_value(token.text) == Some(id)
}

/// Reading every other word from `i` up to `end` gives back the value that was
/// written.
pub open spec fn faithful_values(t: Seq<TokenView>, i: int, end: int) -> bool {
    forall|k: int|
        i < k < end && k < t.len() && (k - i) % 2 == 1 ==> faithful_value(#[trigger] t[k])
}

pub(crate) fn word<'a>(t: &'a Vec<Token>, i: usize) -> (r: Result<&'a str, Error>)
    ensures
        crate::error::outcome(r) == arg(token_views(t@), i as int),
{
    if i < t.len() {
        Ok(t[i].text.as_str())
    } else {
        Err(protocol("missing argument"))
    }
}

pub(crate) fn is_unquoted(t: &Vec<Token>, i: usize, name: &str) -> (r: bool)
    ensures
        r == is_keyword(token_views(t@), i as int, name@),
{
    i < t.len() && !t[i].quoted && text::same(t[i].text.as_str(), name)
}

pub(crate) fn keyword(t: &Vec<Token>, i: usize, expected: &str) -> (r: Result<(), Error>)
    ensures
        crate::error::outcome(r) == expect_keyword(token_views(t@), i as int, expected@),
{
    if i >= t.len() {
        return Err(protocol("missing argument"));
    }
    if !is_unquoted(t, i, expected) {
        let message = text::joined("expected ", expected);
        return Err(Error::Protocol(message));
    }
    Ok(())
}

pub(crate) fn number(t: &Vec<Token>, i: usize) -> (r: Result<u64, Error>)
    ensures
        crate::error::outcome(r) == arg_number(token_views(t@), i as int),
{
    let text = match word(t, i) {
        Ok(text) => text,
        Err(error) => {
            return Err(error);
        },
    };
    match text::parse_unsigned(text, u64::MAX as u128) {
        Some(n) => Ok(n as u64),
        None => Err(protocol("invalid unsigned integer")),
    }
}

pub(crate) fn uuid(t: &Vec<Token>, i: usize) -> (r: Result<Uuid, Error>)
    ensures
        crate::error::outcome(r) == arg_uuid(token_views(t@), i as int),
        i < t.len() ==> faithful_id(token_views(t@)[i as int]),
{
    let text = match word(t, i) {
        Ok(text) => text,
        Err(error) => {
            return Err(error);
        },
    };
    match words::read_uuid(text) {
        None => Err(protocol("invalid UUID")),
        Some(id) => {
            let canonical = words::write_uuid(id);
            if text::same(canonical.as_str(), text) {
                Ok(id)
            } else {
                Err(protocol("UUID must use canonical lowercase encoding"))
            }
        },
    }
}

pub(crate) fn namespace(t: &Vec<Token>, i: usize) -> (r: Result<NamespaceContext, Error>)
    ensures
        crate::error::outcome(r) == arg_name(token_views(t@), i as int, "namespace"@),
{
    match word(t, i) {
        Ok(text) => NamespaceContext::new(text),
        Err(error) => Err(error),
    }
}

pub(crate) fn key(t: &Vec<Token>, i: usize) -> (r: Result<Key, Error>)
    ensures
        crate::error::outcome(r) == arg_name(token_views(t@), i as int, "key"@),
{
    match word(t, i) {
        Ok(text) => Key::new(text),
        Err(error) => Err(error),
    }
}

fn key_pattern(t: &Vec<Token>, i: usize) -> (r: Result<KeyPattern, Error>)
    ensures
        crate::error::outcome(r) == arg_name(token_views(t@), i as int, "key pattern"@),
{
    match word(t, i) {
        Ok(text) => KeyPattern::new(text),
        Err(error) => Err(error),
    }
}

fn namespace_pattern(t: &Vec<Token>, i: usize) -> (r: Result<NamespacePattern, Error>)
    ensures
        crate::error::outcome(r) == arg_name(token_views(t@), i as int, "namespace pattern"@),
{
    match word(t, i) {
        Ok(text) => NamespacePattern::new(text),
        Err(error) => Err(error),
    }
}

pub(crate) fn value(token: &Token) -> (r: Result<Value, Error>)
    ensures
        crate::error::outcome(r) == arg_value(token@),
        faithful_value(token@),
{
    if token.quoted {
        return Ok(Value::Text(token.text.clone()));
    }
    match json::parse(token.text.as_str()) {
        Some(value) => Ok(value),
        None => Err(protocol("invalid value literal")),
    }
}

pub(crate) fn ttl(t: &Vec<Token>, i: usize) -> (r: Result<Option<u64>, Error>)
    requires
        i <= t.len(),
    ensures
        crate::error::outcome(r) == arg_ttl(token_views(t@), i as int),
{
    if i == t.len() {
        return Ok(None);
    }
    match keyword(t, i, "EX") {
        Ok(_) => {},
        Err(error) => {
            return Err(error);
        },
    }
    match number(t, i + 1) {
        Ok(n) => Ok(Some(n)),
        Err(error) => Err(error),
    }
}

/// The values of a batch, each as it is read.
fn values(t: &Vec<Token>, from: usize, end: usize) -> (r: Vec<Result<Value, Error>>)
    requires
        from <= end <= t.len(),
        (end - from) % 2 == 0,
    ensures
        r.len() == (end - from) / 2,
        forall|k: int|
            0 <= k < r.len() ==> crate::error::outcome(#[trigger] r@[k]) == arg_value(
                token_views(t@)[from + 2 * k + 1],
            ),
        faithful_values(token_views(t@), from as int, end as int),
{
    let mut out: Vec<Result<Value, Error>> = Vec::new();
    let mut i: usize = from;
    while i < end
        invariant
            from <= i <= end <= t.len(),
            (end - from) % 2 == 0,
            (i - from) % 2 == 0,
            out.len() == (i - from) / 2,
            forall|k: int|
                0 <= k < out.len() ==> crate::error::outcome(#[trigger] out@[k]) == arg_value(
                    token_views(t@)[from + 2 * k + 1],
                ),
            faithful_values(token_views(t@), from as int, i as int),
        decreases end - i,
    {
        let parsed = value(&t[i + 1]);
        out.push(parsed);
        i += 2;
    }
    out
}

/// The keys and values of a batch.
pub(crate) fn entries(t: &Vec<Token>, from: usize, end: usize) -> (r: Result<Vec<SetEntry>, Error>)
    requires
        from <= end <= t.len(),
        (end - from) % 2 == 0,
    ensures
        match r {
            Ok(list) => arg_entries(token_views(t@), from as int, end as int) == Ok::<
                Seq<(Seq<char>, JsonView)>,
                ErrorView,
            >(crate::error::views(list@)),
            Err(error) => arg_entries(token_views(t@), from as int, end as int) == Err::<
                Seq<(Seq<char>, JsonView)>,
                ErrorView,
            >(error@),
        },
        faithful_values(token_views(t@), from as int, end as int),
{
    let mut parsed = values(t, from, end);
    let ghost all = parsed@;
    let mut out: Vec<SetEntry> = Vec::new();
    let mut i: usize = end;
    let mut failure: Option<Error> = None;
    assert(all.take(all.len() as int) =~= all);
    assert(crate::error::views(out@.reverse()) =~= Seq::<(Seq<char>, JsonView)>::empty());
    while i > from
        invariant
            from <= i <= end <= t.len(),
            (end - from) % 2 == 0,
            (i - from) % 2 == 0,
            parsed@ == all.take((i - from) / 2),
            all.len() == (end - from) / 2,
            forall|k: int|
                0 <= k < all.len() ==> crate::error::outcome(#[trigger] all[k]) == arg_value(
                    token_views(t@)[from + 2 * k + 1],
                ),
            faithful_values(token_views(t@), from as int, end as int),
            match failure {
                Some(error) => arg_entries(token_views(t@), i as int, end as int) == Err::<
                    Seq<(Seq<char>, JsonView)>,
                    ErrorView,
                >(error@),
                None => arg_entries(token_views(t@), i as int, end as int) == Ok::<
                    Seq<(Seq<char>, JsonView)>,
                    ErrorView,
                >(crate::error::views(out@.reverse())),
            },
        decreases i,
    {
        i -= 2;
        let ghost k = (i - from) / 2;
        assert(parsed@[k] == all[k]);
        let last = parsed.pop();
        assert(parsed@ =~= all.take(k));
        let name = key(t, i);
        if let Some(last) = last {
            assert(last == all[k]);
            match (name, last) {
                (Err(error), _) => {
                    failure = Some(error);
                },
                (Ok(_), Err(error)) => {
                    failure = Some(error);
                },
                (Ok(key), Ok(value)) => {
                    let ghost before = crate::error::views(out@.reverse());
                    let entry = SetEntry { key, value };
                    out.push(entry);
                    assert(crate::error::views(out@.reverse()) =~= seq![entry@] + before);
                },
            }
        }
    }
    match failure {
        Some(error) => Err(error),
        None => Ok(text::reversed(out)),
    }
}

/// The words with a time to live behind them, if there is one.
pub open spec fn with_ttl(words: Seq<WordView>, ttl: Option<u64>) -> Seq<WordView> {
    match ttl {
        Some(n) => words.push(WordView::Keyword("EX"@)).push(WordView::Number(n as nat)),
        None => words,
    }
}

/// The words with an option behind them, if it is given.
pub open spec fn with_option(words: Seq<WordView>, name: Seq<char>, value: Option<nat>) -> Seq<
    WordView,
> {
    match value {
        Some(n) => words.push(WordView::Keyword(name)).push(WordView::Number(n)),
        None => words,
    }
}

/// The words with the entries of a batch behind them.
pub open spec fn with_entries(
    words: Seq<WordView>,
    entries: Seq<(Seq<char>, JsonView)>,
) -> Seq<WordView>
    decreases entries.len(),
{
    if entries.len() == 0 {
        words
    } else {
        with_entries(words, entries.drop_last()).push(words::batch_key(entries.last().0)).push(
            WordView::Json(entries.last().1),
        )
    }
}

/// A line of one reserved word.
pub open spec fn starting(keyword: Seq<char>) -> Seq<WordView> {
    seq![WordView::Keyword(keyword)]
}

/// An optional number without its machine type.
pub open spec fn optional_nat(value: Option<u64>) -> Option<nat> {
    match value {
        Some(n) => Some(n as nat),
        None => None,
    }
}

/// The words of a command.
pub open spec fn command_words(command: CommandView) -> Seq<WordView> {
    match command {
        CommandView::Auth { api_key, adapter_instance } => {
            let words = starting("AUTH"@).push(WordView::Name(api_key));
            match adapter_instance {
                Some(id) => words.push(WordView::Keyword("ADAPTER"@)).push(WordView::Id(id)),
                None => words,
            }
        },
        CommandView::Get { namespace, key } => starting("GET"@).push(
            WordView::Name(namespace),
        ).push(WordView::Name(key)),
        CommandView::SetValue { namespace, key, value, ttl_seconds } => with_ttl(
            starting("SET"@).push(WordView::Name(namespace)).push(WordView::Name(key)).push(
                WordView::Json(value),
            ),
            ttl_seconds,
        ),
        CommandView::SetBatch { namespace, entries, ttl_seconds } => with_ttl(
            with_entries(starting("SET_BATCH"@).push(WordView::Name(namespace)), entries),
            ttl_seconds,
        ),
        CommandView::Delete { namespace, key_pattern } => {
            let words = starting("DELETE"@).push(WordView::Name(namespace));
            match key_pattern {
                Some(pattern) => words.push(WordView::Name(pattern)),
                None => words,
            }
        },
        CommandView::Move { source, destination } => starting("MOVE"@).push(
            WordView::Name(source),
        ).push(WordView::Name(destination)),
        CommandView::Provide { namespace_pattern, key_pattern, max_rate, timeout, miss_ttl } => {
            let words = starting("PROVIDE"@).push(WordView::Name(namespace_pattern)).push(
                WordView::Name(key_pattern),
            );
            let rate = match max_rate {
                Some(n) => Some(n as nat),
                None => None,
            };
            let words = with_option(words, "MAX_RATE"@, rate);
            let words = with_option(words, "TIMEOUT"@, optional_nat(timeout));
            with_option(words, "MISS_TTL"@, optional_nat(miss_ttl))
        },
        CommandView::Store { namespace_pattern, key_pattern } => starting("STORE"@).push(
            WordView::Name(namespace_pattern),
        ).push(WordView::Name(key_pattern)),
        CommandView::Ping => starting("PING"@),
        CommandView::Stats => starting("STATS"@),
    }
}

/// The frame of a command, or why it has none.
pub open spec fn encoded_command(command: CommandView) -> Result<Seq<char>, ErrorView> {
    match command {
        CommandView::SetBatch { entries, .. } => if entries.len() == 0 {
            refused("SET_BATCH requires an entry"@)
        } else {
            Ok(words::line(command_words(command)))
        },
        _ => Ok(words::line(command_words(command))),
    }
}

pub(crate) fn add_ttl(line: &mut Line, ttl: Option<u64>)
    requires
        old(line).ok(),
    ensures
        final(line).ok(),
        final(line).words@ == with_ttl(old(line).words@, ttl),
{
    if let Some(n) = ttl {
        line.keyword("EX");
        line.number(n);
    }
}

fn add_option(line: &mut Line, name: &str, value: Option<u64>)
    requires
        old(line).ok(),
    ensures
        final(line).ok(),
        final(line).words@ == with_option(old(line).words@, name@, optional_nat(value)),
{
    if let Some(n) = value {
        line.keyword(name);
        line.number(n);
    }
}

pub(crate) fn add_entries(line: &mut Line, entries: &Vec<SetEntry>)
    requires
        old(line).ok(),
    ensures
        final(line).ok(),
        final(line).words@ == with_entries(old(line).words@, crate::error::views(entries@)),
{
    let ghost start = line.words@;
    let ghost all = crate::error::views(entries@);
    let mut i: usize = 0;
    assert(all.take(0) =~= Seq::<(Seq<char>, JsonView)>::empty());
    while i < entries.len()
        invariant
            i <= entries.len(),
            line.ok(),
            all == crate::error::views(entries@),
            line.words@ == with_entries(start, all.take(i as int)),
        decreases entries.len() - i,
    {
        let ghost upto = all.take(i + 1);
        line.batch_key(entries[i].key.as_str());
        line.json(&entries[i].value);
        assert(upto.drop_last() =~= all.take(i as int));
        assert(upto.last() == entries@[i as int]@);
        i += 1;
    }
    assert(all.take(all.len() as int) =~= all);
}

/// Writes a command as a frame.
pub fn encode_command(command: &Command) -> (r: Result<String, Error>)
    ensures
        crate::error::outcome(r) == encoded_command(command@),
{
    match command {
        Command::Auth { api_key, adapter_instance } => {
            let mut line = Line::start("AUTH");
            line.name(api_key.as_str());
            if let Some(id) = adapter_instance {
                line.keyword("ADAPTER");
                line.id(*id);
            }
            Ok(line.text)
        },
        Command::Get { namespace, key } => {
            let mut line = Line::start("GET");
            line.name(namespace.as_str());
            line.name(key.as_str());
            Ok(line.text)
        },
        Command::SetValue { namespace, key, value, ttl_seconds } => {
            let mut line = Line::start("SET");
            line.name(namespace.as_str());
            line.name(key.as_str());
            line.json(value);
            add_ttl(&mut line, *ttl_seconds);
            Ok(line.text)
        },
        Command::SetBatch { namespace, entries, ttl_seconds } => {
            if entries.len() == 0 {
                return Err(protocol("SET_BATCH requires an entry"));
            }
            let mut line = Line::start("SET_BATCH");
            line.name(namespace.as_str());
            add_entries(&mut line, entries);
            add_ttl(&mut line, *ttl_seconds);
            Ok(line.text)
        },
        Command::Delete { namespace, key_pattern } => {
            let mut line = Line::start("DELETE");
            line.name(namespace.as_str());
            if let Some(pattern) = key_pattern {
                line.name(pattern.as_str());
            }
            Ok(line.text)
        },
        Command::Move { source, destination } => {
            let mut line = Line::start("MOVE");
            line.name(source.as_str());
            line.name(destination.as_str());
            Ok(line.text)
        },
        Command::Provide { namespace_pattern, key_pattern, max_rate, timeout, miss_ttl } => {
            let mut line = Line::start("PROVIDE");
            line.name(namespace_pattern.as_str());
            line.name(key_pattern.as_str());
            let rate: Option<u64> = match max_rate {
                Some(n) => Some(*n as u64),
                None => None,
            };
            add_option(&mut line, "MAX_RATE", rate);
            add_option(&mut line, "TIMEOUT", *timeout);
            add_option(&mut line, "MISS_TTL", *miss_ttl);
            Ok(line.text)
        },
        Command::Store { namespace_pattern, key_pattern } => {
            let mut line = Line::start("STORE");
            line.name(namespace_pattern.as_str());
            line.name(key_pattern.as_str());
            Ok(line.text)
        },
        Command::Ping => Ok(Line::start("PING").text),
        Command::Stats => Ok(Line::start("STATS").text),
    }
}

/// The number of words does not fit the command.
pub open spec fn wrong_count<T>() -> Result<T, ErrorView> {
    refused("unexpected number of arguments"@)
}

/// The words of a AUTH command.
pub open spec fn auth_of(t: Seq<TokenView>) -> Result<CommandView, ErrorView> {
    if !(t.len() == 2 || (t.len() == 4 && is_keyword(t, 2, "ADAPTER"@))) {
        refused("invalid AUTH arguments"@)
    } else if t.len() == 4 {
        match arg_uuid(t, 3) {
            Err(error) => Err(error),
            Ok(id) => Ok(CommandView::Auth { api_key: t[1].text, adapter_instance: Some(id) }),
        }
    } else {
        Ok(CommandView::Auth { api_key: t[1].text, adapter_instance: None })
    }
}

/// The words of a GET command.
pub open spec fn get_of(t: Seq<TokenView>) -> Result<CommandView, ErrorView> {
    if t.len() != 3 {
        wrong_count()
    } else {
        match arg_name(t, 1, "namespace"@) {
            Err(error) => Err(error),
            Ok(namespace) => match arg_name(t, 2, "key"@) {
                Err(error) => Err(error),
                Ok(key) => Ok(CommandView::Get { namespace, key }),
            },
        }
    }
}

/// The words of a SET command.
pub open spec fn set_of(t: Seq<TokenView>) -> Result<CommandView, ErrorView> {
    if !(t.len() == 4 || t.len() == 6) {
        refused("invalid SET arguments"@)
    } else {
        match arg_ttl(t, 4) {
            Err(error) => Err(error),
            Ok(ttl_seconds) => match arg_name(t, 1, "namespace"@) {
                Err(error) => Err(error),
                Ok(namespace) => match arg_name(t, 2, "key"@) {
                    Err(error) => Err(error),
                    Ok(key) => match arg_value(t[3]) {
                        Err(error) => Err(error),
                        Ok(value) => Ok(
                            CommandView::SetValue { namespace, key, value, ttl_seconds },
                        ),
                    },
                },
            },
        }
    }
}

/// The time to live of a batch whose entries end at `end`.
pub open spec fn batch_ttl(t: Seq<TokenView>, end: int) -> Result<Option<u64>, ErrorView> {
    if end < t.len() {
        match arg_number(t, t.len() - 1) {
            Err(error) => Err(error),
            Ok(n) => Ok(Some(n)),
        }
    } else {
        Ok(None)
    }
}

/// The words of a SET_BATCH command.
pub open spec fn set_batch_of(t: Seq<TokenView>) -> Result<CommandView, ErrorView> {
    let end = batch_end(t);
    if t.len() < 4 {
        refused("SET_BATCH requires entries"@)
    } else if end <= 2 || (end - 2) % 2 != 0 {
        refused("SET_BATCH requires key/value pairs"@)
    } else {
        match arg_entries(t, 2, end) {
            Err(error) => Err(error),
            Ok(entries) => match arg_name(t, 1, "namespace"@) {
                Err(error) => Err(error),
                Ok(namespace) => match batch_ttl(t, end) {
                    Err(error) => Err(error),
                    Ok(ttl_seconds) => Ok(
                        CommandView::SetBatch { namespace, entries, ttl_seconds },
                    ),
                },
            },
        }
    }
}

/// Argument `i` as a key pattern, if there is one.
pub open spec fn optional_pattern(t: Seq<TokenView>, i: int) -> Result<Option<Seq<char>>, ErrorView> {
    if i < t.len() {
        match arg_name(t, i, "key pattern"@) {
            Err(error) => Err(error),
            Ok(pattern) => Ok(Some(pattern)),
        }
    } else {
        Ok(None)
    }
}

/// The words of a DELETE command.
pub open spec fn delete_of(t: Seq<TokenView>) -> Result<CommandView, ErrorView> {
    if !(t.len() == 2 || t.len() == 3) {
        refused("invalid DELETE arguments"@)
    } else {
        match arg_name(t, 1, "namespace"@) {
            Err(error) => Err(error),
            Ok(namespace) => match optional_pattern(t, 2) {
                Err(error) => Err(error),
                Ok(key_pattern) => Ok(CommandView::Delete { namespace, key_pattern }),
            },
        }
    }
}

/// The words of a MOVE command.
pub open spec fn move_of(t: Seq<TokenView>) -> Result<CommandView, ErrorView> {
    if t.len() != 3 {
        wrong_count()
    } else {
        match arg_name(t, 1, "namespace"@) {
            Err(error) => Err(error),
            Ok(source) => match arg_name(t, 2, "namespace"@) {
                Err(error) => Err(error),
                Ok(destination) => Ok(CommandView::Move { source, destination }),
            },
        }
    }
}

/// The namespace pattern and the key pattern of a registration.
pub open spec fn patterns_of(t: Seq<TokenView>) -> Result<(Seq<char>, Seq<char>), ErrorView> {
    match arg_name(t, 1, "namespace pattern"@) {
        Err(error) => Err(error),
        Ok(namespace_pattern) => match arg_name(t, 2, "key pattern"@) {
            Err(error) => Err(error),
            Ok(key_pattern) => Ok((namespace_pattern, key_pattern)),
        },
    }
}

/// The rate of a registration, and the argument after it.
pub open spec fn max_rate_of(t: Seq<TokenView>) -> Result<(Option<u32>, int), ErrorView> {
    match arg_option(t, 3, "MAX_RATE"@) {
        Err(error) => Err(error),
        Ok((None, next)) => Ok((None, next)),
        Ok((Some(n), next)) => if n > u32::MAX {
            refused("MAX_RATE overflows u32"@)
        } else {
            Ok((Some(n as u32), next))
        },
    }
}

/// The words of a PROVIDE command.
pub open spec fn provide_of(t: Seq<TokenView>) -> Result<CommandView, ErrorView> {
    if t.len() < 3 {
        refused("invalid PROVIDE arguments"@)
    } else {
        match max_rate_of(t) {
            Err(error) => Err(error),
            Ok((max_rate, i)) => match arg_option(t, i, "TIMEOUT"@) {
                Err(error) => Err(error),
                Ok((timeout, j)) => match arg_option(t, j, "MISS_TTL"@) {
                    Err(error) => Err(error),
                    Ok((miss_ttl, k)) => if k != t.len() {
                        refused("invalid PROVIDE options"@)
                    } else {
                        match patterns_of(t) {
                            Err(error) => Err(error),
                            Ok((namespace_pattern, key_pattern)) => Ok(
                                CommandView::Provide {
                                    namespace_pattern,
                                    key_pattern,
                                    max_rate,
                                    timeout,
                                    miss_ttl,
                                },
                            ),
                        }
                    },
                },
            },
        }
    }
}

/// The words of a STORE command.
pub open spec fn store_of(t: Seq<TokenView>) -> Result<CommandView, ErrorView> {
    if t.len() != 3 {
        wrong_count()
    } else {
        match patterns_of(t) {
            Err(error) => Err(error),
            Ok((namespace_pattern, key_pattern)) => Ok(
                CommandView::Store { namespace_pattern, key_pattern },
            ),
        }
    }
}

/// The command that the words of a frame write.
pub open spec fn command_of(t: Seq<TokenView>) -> Result<CommandView, ErrorView> {
    let name = t[0].text;
    if t[0].quoted {
        refused("command keyword must be unquoted"@)
    } else if name == "AUTH"@ {
        auth_of(t)
    } else if name == "GET"@ {
        get_of(t)
    } else if name == "SET"@ {
        set_of(t)
    } else if name == "SET_BATCH"@ {
        set_batch_of(t)
    } else if name == "DELETE"@ {
        delete_of(t)
    } else if name == "MOVE"@ {
        move_of(t)
    } else if name == "PROVIDE"@ {
        provide_of(t)
    } else if name == "STORE"@ {
        store_of(t)
    } else if name == "PING"@ {
        if t.len() != 1 {
            wrong_count()
        } else {
            Ok(CommandView::Ping)
        }
    } else if name == "STATS"@ {
        if t.len() != 1 {
            wrong_count()
        } else {
            Ok(CommandView::Stats)
        }
    } else {
        refused("unknown command"@)
    }
}

/// The command that a frame writes.
pub open spec fn decoded_command(frame: Seq<char>) -> Result<CommandView, ErrorView> {
    match wire::frame_words(frame) {
        Err(error) => Err(error),
        Ok(t) => command_of(t),
    }
}

fn decode_auth(t: &Vec<Token>) -> (r: Result<Command, Error>)
    ensures
        crate::error::outcome(r) == auth_of(token_views(t@)),
        t.len() == 4 && is_keyword(token_views(t@), 2, "ADAPTER"@) ==> faithful_id(
            token_views(t@)[3],
        ),
{
    if !(t.len() == 2 || (t.len() == 4 && is_unquoted(t, 2, "ADAPTER"))) {
        return Err(protocol("invalid AUTH arguments"));
    }
    let api_key = t[1].text.clone();
    if t.len() == 4 {
        match uuid(t, 3) {
            Ok(id) => Ok(Command::Auth { api_key, adapter_instance: Some(id) }),
            Err(error) => Err(error),
        }
    } else {
        Ok(Command::Auth { api_key, adapter_instance: None })
    }
}

fn decode_get(t: &Vec<Token>) -> (r: Result<Command, Error>)
    ensures
        crate::error::outcome(r) == get_of(token_views(t@)),
{
    if t.len() != 3 {
        return Err(protocol("unexpected number of arguments"));
    }
    match namespace(t, 1) {
        Err(error) => Err(error),
        Ok(namespace) => match key(t, 2) {
            Err(error) => Err(error),
            Ok(key) => Ok(Command::Get { namespace, key }),
        },
    }
}

fn decode_set(t: &Vec<Token>) -> (r: Result<Command, Error>)
    ensures
        crate::error::outcome(r) == set_of(token_views(t@)),
        t.len() == 4 || t.len() == 6 ==> faithful_value(token_views(t@)[3]),
{
    if !(t.len() == 4 || t.len() == 6) {
        return Err(protocol("invalid SET arguments"));
    }
    let parsed = value(&t[3]);
    let ttl_seconds = match ttl(t, 4) {
        Ok(ttl) => ttl,
        Err(error) => {
            return Err(error);
        },
    };
    match namespace(t, 1) {
        Err(error) => Err(error),
        Ok(namespace) => match key(t, 2) {
            Err(error) => Err(error),
            Ok(key) => match parsed {
                Err(error) => Err(error),
                Ok(value) => Ok(Command::SetValue { namespace, key, value, ttl_seconds }),
            },
        },
    }
}

pub(crate) fn find_batch_end(t: &Vec<Token>) -> (r: usize)
    requires
        t.len() >= 2,
    ensures
        r == batch_end(token_views(t@)),
        r == t.len() || r == t.len() - 2,
{
    if is_unquoted(t, t.len() - 2, "EX") {
        t.len() - 2
    } else {
        t.len()
    }
}

pub(crate) fn decode_batch_ttl(t: &Vec<Token>, end: usize) -> (r: Result<Option<u64>, Error>)
    requires
        t.len() > 0,
    ensures
        crate::error::outcome(r) == batch_ttl(token_views(t@), end as int),
{
    if end < t.len() {
        match number(t, t.len() - 1) {
            Ok(n) => Ok(Some(n)),
            Err(error) => Err(error),
        }
    } else {
        Ok(None)
    }
}

fn decode_set_batch(t: &Vec<Token>) -> (r: Result<Command, Error>)
    ensures
        crate::error::outcome(r) == set_batch_of(token_views(t@)),
        t.len() >= 4 && batch_end(token_views(t@)) > 2 && (batch_end(token_views(t@)) - 2) % 2 == 0
            ==> faithful_values(token_views(t@), 2, batch_end(token_views(t@))),
{
    if t.len() < 4 {
        return Err(protocol("SET_BATCH requires entries"));
    }
    let end: usize = find_batch_end(t);
    if end <= 2 || (end - 2) % 2 != 0 {
        return Err(protocol("SET_BATCH requires key/value pairs"));
    }
    match entries(t, 2, end) {
        Err(error) => Err(error),
        Ok(entries) => match namespace(t, 1) {
            Err(error) => Err(error),
            Ok(namespace) => match decode_batch_ttl(t, end) {
                Err(error) => Err(error),
                Ok(ttl_seconds) => Ok(Command::SetBatch { namespace, entries, ttl_seconds }),
            },
        },
    }
}

pub(crate) fn decode_optional_pattern(t: &Vec<Token>, i: usize) -> (r: Result<Option<KeyPattern>, Error>)
    ensures
        match r {
            Ok(pattern) => optional_pattern(token_views(t@), i as int) == Ok::<
                Option<Seq<char>>,
                ErrorView,
            >(crate::error::inner(pattern)),
            Err(error) => optional_pattern(token_views(t@), i as int) == Err::<
                Option<Seq<char>>,
                ErrorView,
            >(error@),
        },
{
    if i < t.len() {
        match key_pattern(t, i) {
            Ok(pattern) => Ok(Some(pattern)),
            Err(error) => Err(error),
        }
    } else {
        Ok(None)
    }
}

fn decode_delete(t: &Vec<Token>) -> (r: Result<Command, Error>)
    ensures
        crate::error::outcome(r) == delete_of(token_views(t@)),
{
    if !(t.len() == 2 || t.len() == 3) {
        return Err(protocol("invalid DELETE arguments"));
    }
    match namespace(t, 1) {
        Err(error) => Err(error),
        Ok(namespace) => match decode_optional_pattern(t, 2) {
            Err(error) => Err(error),
            Ok(key_pattern) => Ok(Command::Delete { namespace, key_pattern }),
        },
    }
}

fn decode_move(t: &Vec<Token>) -> (r: Result<Command, Error>)
    ensures
        crate::error::outcome(r) == move_of(token_views(t@)),
{
    if t.len() != 3 {
        return Err(protocol("unexpected number of arguments"));
    }
    match namespace(t, 1) {
        Err(error) => Err(error),
        Ok(source) => match namespace(t, 2) {
            Err(error) => Err(error),
            Ok(destination) => Ok(Command::Move { source, destination }),
        },
    }
}

fn decode_patterns(t: &Vec<Token>) -> (r: Result<(NamespacePattern, KeyPattern), Error>)
    ensures
        crate::error::outcome(r) == patterns_of(token_views(t@)),
{
    match namespace_pattern(t, 1) {
        Err(error) => Err(error),
        Ok(namespace_pattern) => match key_pattern(t, 2) {
            Err(error) => Err(error),
            Ok(key_pattern) => Ok((namespace_pattern, key_pattern)),
        },
    }
}

fn option(t: &Vec<Token>, i: usize, name: &str) -> (r: Result<(Option<u64>, usize), Error>)
    requires
        i <= t.len(),
    ensures
        match r {
            Ok((value, next)) => arg_option(token_views(t@), i as int, name@) == Ok::<
                (Option<u64>, int),
                ErrorView,
            >((value, next as int)) && next <= t.len(),
            Err(error) => arg_option(token_views(t@), i as int, name@) == Err::<
                (Option<u64>, int),
                ErrorView,
            >(error@),
        },
{
    if is_unquoted(t, i, name) {
        match number(t, i + 1) {
            Ok(n) => Ok((Some(n), i + 2)),
            Err(error) => Err(error),
        }
    } else {
        Ok((None, i))
    }
}

fn decode_provide(t: &Vec<Token>) -> (r: Result<Command, Error>)
    ensures
        crate::error::outcome(r) == provide_of(token_views(t@)),
{
    if t.len() < 3 {
        return Err(protocol("invalid PROVIDE arguments"));
    }
    let (rate, i) = match option(t, 3, "MAX_RATE") {
        Ok(found) => found,
        Err(error) => {
            return Err(error);
        },
    };
    let max_rate: Option<u32> = match rate {
        Some(n) => if n > u32::MAX as u64 {
            return Err(protocol("MAX_RATE overflows u32"));
        } else {
            Some(n as u32)
        },
        None => None,
    };
    assert(max_rate_of(token_views(t@)) == Ok::<(Option<u32>, int), ErrorView>(
        (max_rate, i as int),
    ));
    let (timeout, j) = match option(t, i, "TIMEOUT") {
        Ok(found) => found,
        Err(error) => {
            return Err(error);
        },
    };
    let (miss_ttl, k) = match option(t, j, "MISS_TTL") {
        Ok(found) => found,
        Err(error) => {
            return Err(error);
        },
    };
    if k != t.len() {
        return Err(protocol("invalid PROVIDE options"));
    }
    match decode_patterns(t) {
        Err(error) => Err(error),
        Ok((namespace_pattern, key_pattern)) => Ok(
            Command::Provide { namespace_pattern, key_pattern, max_rate, timeout, miss_ttl },
        ),
    }
}

fn decode_store(t: &Vec<Token>) -> (r: Result<Command, Error>)
    ensures
        crate::error::outcome(r) == store_of(token_views(t@)),
{
    if t.len() != 3 {
        return Err(protocol("unexpected number of arguments"));
    }
    match decode_patterns(t) {
        Err(error) => Err(error),
        Ok((namespace_pattern, key_pattern)) => Ok(
            Command::Store { namespace_pattern, key_pattern },
        ),
    }
}

/// A name that the wire gives back.
pub open spec fn wire_name(name: Seq<char>) -> bool {
    name.len() > 0 && words::wire_text(name)
}

/// The entries of a batch that the wire gives back.
pub open spec fn wire_entries(entries: Seq<(Seq<char>, JsonView)>) -> bool {
    &&& entries.len() > 0
    &&& forall|k: int|
        0 <= k < entries.len() ==> wire_name((#[trigger] entries[k]).0) && words::writable(
            WordView::Json(entries[k].1),
        )
}

/// A command that the wire gives back: names are not empty and hold no control
/// characters but line feed, carriage return and tab; values are
/// [readable](json::readable).
pub open spec fn wire_command(command: CommandView) -> bool {
    match command {
        CommandView::Auth { api_key, .. } => words::wire_text(api_key),
        CommandView::Get { namespace, key } => wire_name(namespace) && wire_name(key),
        CommandView::SetValue { namespace, key, value, .. } => wire_name(namespace) && wire_name(
            key,
        ) && words::writable(WordView::Json(value)),
        CommandView::SetBatch { namespace, entries, .. } => wire_name(namespace) && wire_entries(
            entries,
        ),
        CommandView::Delete { namespace, key_pattern } => wire_name(namespace) && (
        key_pattern matches Some(pattern) ==> wire_name(pattern)),
        CommandView::Move { source, destination } => wire_name(source) && wire_name(destination),
        CommandView::Provide { namespace_pattern, key_pattern, .. } => wire_name(namespace_pattern)
            && wire_name(key_pattern),
        CommandView::Store { namespace_pattern, key_pattern } => wire_name(namespace_pattern)
            && wire_name(key_pattern),
        CommandView::Ping => true,
        CommandView::Stats => true,
    }
}

pub(crate) proof fn lemma_with_entries(words: Seq<WordView>, entries: Seq<(Seq<char>, JsonView)>)
    ensures
        with_entries(words, entries).len() == words.len() + 2 * entries.len(),
        forall|i: int|
            0 <= i < words.len() ==> #[trigger] with_entries(words, entries)[i] == words[i],
        forall|k: int|
            0 <= k < entries.len() ==> with_entries(words, entries)[words.len() + 2 * k]
                == words::batch_key((#[trigger] entries[k]).0) && with_entries(
                words,
                entries,
            )[words.len() + 2 * k + 1] == WordView::Json(entries[k].1),
    decreases entries.len(),
{
    if entries.len() > 0 {
        let front = entries.drop_last();
        lemma_with_entries(words, front);
        assert forall|k: int| 0 <= k < entries.len() implies with_entries(
            words,
            entries,
        )[words.len() + 2 * k] == words::batch_key((#[trigger] entries[k]).0) && with_entries(
            words,
            entries,
        )[words.len() + 2 * k + 1] == WordView::Json(entries[k].1) by {
            if k < front.len() {
                assert(front[k] == entries[k]);
            }
        }
    }
}

/// What stands behind the reserved words.
proof fn lemma_literals()
    ensures
        "EX"@ == seq!['E', 'X'],
        "AUTH"@ == seq!['A', 'U', 'T', 'H'],
        "ADAPTER"@ == seq!['A', 'D', 'A', 'P', 'T', 'E', 'R'],
        "GET"@ == seq!['G', 'E', 'T'],
        "SET"@ == seq!['S', 'E', 'T'],
        "SET_BATCH"@ == seq!['S', 'E', 'T', '_', 'B', 'A', 'T', 'C', 'H'],
        "DELETE"@ == seq!['D', 'E', 'L', 'E', 'T', 'E'],
        "MOVE"@ == seq!['M', 'O', 'V', 'E'],
        "PROVIDE"@ == seq!['P', 'R', 'O', 'V', 'I', 'D', 'E'],
        "MAX_RATE"@ == seq!['M', 'A', 'X', '_', 'R', 'A', 'T', 'E'],
        "TIMEOUT"@ == seq!['T', 'I', 'M', 'E', 'O', 'U', 'T'],
        "MISS_TTL"@ == seq!['M', 'I', 'S', 'S', '_', 'T', 'T', 'L'],
        "STORE"@ == seq!['S', 'T', 'O', 'R', 'E'],
        "PING"@ == seq!['P', 'I', 'N', 'G'],
        "STATS"@ == seq!['S', 'T', 'A', 'T', 'S'],
{
    reveal_strlit("EX");
    reveal_strlit("AUTH");
    reveal_strlit("ADAPTER");
    reveal_strlit("GET");
    reveal_strlit("SET");
    reveal_strlit("SET_BATCH");
    reveal_strlit("DELETE");
    reveal_strlit("MOVE");
    reveal_strlit("PROVIDE");
    reveal_strlit("MAX_RATE");
    reveal_strlit("TIMEOUT");
    reveal_strlit("MISS_TTL");
    reveal_strlit("STORE");
    reveal_strlit("PING");
    reveal_strlit("STATS");
}

/// No two commands have the same name, and no two options.
proof fn lemma_distinct()
    ensures
        "AUTH"@ != "GET"@,
        "AUTH"@ != "SET"@,
        "AUTH"@ != "SET_BATCH"@,
        "AUTH"@ != "DELETE"@,
        "AUTH"@ != "MOVE"@,
        "AUTH"@ != "PROVIDE"@,
        "AUTH"@ != "STORE"@,
        "AUTH"@ != "PING"@,
        "AUTH"@ != "STATS"@,
        "GET"@ != "SET"@,
        "GET"@ != "SET_BATCH"@,
        "GET"@ != "DELETE"@,
        "GET"@ != "MOVE"@,
        "GET"@ != "PROVIDE"@,
        "GET"@ != "STORE"@,
        "GET"@ != "PING"@,
        "GET"@ != "STATS"@,
        "SET"@ != "SET_BATCH"@,
        "SET"@ != "DELETE"@,
        "SET"@ != "MOVE"@,
        "SET"@ != "PROVIDE"@,
        "SET"@ != "STORE"@,
        "SET"@ != "PING"@,
        "SET"@ != "STATS"@,
        "SET_BATCH"@ != "DELETE"@,
        "SET_BATCH"@ != "MOVE"@,
        "SET_BATCH"@ != "PROVIDE"@,
        "SET_BATCH"@ != "STORE"@,
        "SET_BATCH"@ != "PING"@,
        "SET_BATCH"@ != "STATS"@,
        "DELETE"@ != "MOVE"@,
        "DELETE"@ != "PROVIDE"@,
        "DELETE"@ != "STORE"@,
        "DELETE"@ != "PING"@,
        "DELETE"@ != "STATS"@,
        "MOVE"@ != "PROVIDE"@,
        "MOVE"@ != "STORE"@,
        "MOVE"@ != "PING"@,
        "MOVE"@ != "STATS"@,
        "PROVIDE"@ != "STORE"@,
        "PROVIDE"@ != "PING"@,
        "PROVIDE"@ != "STATS"@,
        "STORE"@ != "PING"@,
        "STORE"@ != "STATS"@,
        "PING"@ != "STATS"@,
        "MAX_RATE"@ != "TIMEOUT"@,
        "MAX_RATE"@ != "MISS_TTL"@,
        "TIMEOUT"@ != "MISS_TTL"@,
{
    lemma_literals();
    assert("AUTH"@.len() == 4 && "AUTH"@[0] == 'A' && "AUTH"@[1] == 'U');
    assert("GET"@.len() == 3 && "GET"@[0] == 'G' && "GET"@[1] == 'E');
    assert("SET"@.len() == 3 && "SET"@[0] == 'S' && "SET"@[1] == 'E');
    assert("SET_BATCH"@.len() == 9 && "SET_BATCH"@[0] == 'S' && "SET_BATCH"@[1] == 'E');
    assert("DELETE"@.len() == 6 && "DELETE"@[0] == 'D' && "DELETE"@[1] == 'E');
    assert("MOVE"@.len() == 4 && "MOVE"@[0] == 'M' && "MOVE"@[1] == 'O');
    assert("PROVIDE"@.len() == 7 && "PROVIDE"@[0] == 'P' && "PROVIDE"@[1] == 'R');
    assert("STORE"@.len() == 5 && "STORE"@[0] == 'S' && "STORE"@[1] == 'T');
    assert("PING"@.len() == 4 && "PING"@[0] == 'P' && "PING"@[1] == 'I');
    assert("STATS"@.len() == 5 && "STATS"@[0] == 'S' && "STATS"@[1] == 'T');
    assert("MAX_RATE"@.len() == 8 && "MAX_RATE"@[0] == 'M' && "MAX_RATE"@[1] == 'A');
    assert("TIMEOUT"@.len() == 7 && "TIMEOUT"@[0] == 'T' && "TIMEOUT"@[1] == 'I');
    assert("MISS_TTL"@.len() == 8 && "MISS_TTL"@[0] == 'M' && "MISS_TTL"@[1] == 'I');
}

/// The reserved words of commands are scanned as they are.
proof fn lemma_keywords_bare()
    ensures
        words::bare("EX"@),
        words::bare("AUTH"@),
        words::bare("ADAPTER"@),
        words::bare("GET"@),
        words::bare("SET"@),
        words::bare("SET_BATCH"@),
        words::bare("DELETE"@),
        words::bare("MOVE"@),
        words::bare("PROVIDE"@),
        words::bare("MAX_RATE"@),
        words::bare("TIMEOUT"@),
        words::bare("MISS_TTL"@),
        words::bare("STORE"@),
        words::bare("PING"@),
        words::bare("STATS"@),
{
    lemma_literals();
}

proof fn lemma_command_writable(command: CommandView)
    requires
        wire_command(command),
    ensures
        command_words(command).len() > 0,
        command_words(command)[0] is Keyword,
        forall|k: int|
            0 <= k < command_words(command).len() ==> words::writable(
                #[trigger] command_words(command)[k],
            ),
{
    lemma_keywords_bare();
    let all = command_words(command);
    match command {
        CommandView::SetBatch { namespace, entries, ttl_seconds } => {
            let head = starting("SET_BATCH"@).push(WordView::Name(namespace));
            lemma_with_entries(head, entries);
            assert(all[0] == head[0]);
            assert forall|k: int| 0 <= k < all.len() implies words::writable(#[trigger] all[k]) by {
                if k < with_entries(head, entries).len() {
                    lemma_entry_writable(head, entries, k);
                }
            }
        },
        _ => {},
    }
}

pub(crate) proof fn lemma_entry_writable(
    head: Seq<WordView>,
    entries: Seq<(Seq<char>, JsonView)>,
    k: int,
)
    requires
        wire_entries(entries),
        0 <= k < with_entries(head, entries).len(),
    ensures
        k >= head.len() ==> words::writable(with_entries(head, entries)[k]),
{
    lemma_with_entries(head, entries);
    if k >= head.len() {
        let j = (k - head.len()) / 2;
        assert(wire_name(entries[j].0));
        assert(k == head.len() + 2 * j || k == head.len() + 2 * j + 1);
    }
}

pub(crate) proof fn lemma_number(t: Seq<TokenView>, i: int, n: u64)
    requires
        0 <= i < t.len(),
        t[i] == words::word_token(WordView::Number(n as nat)),
    ensures
        arg_number(t, i) == Ok::<u64, ErrorView>(n),
{
    text::lemma_unsigned_decimal(n as nat, u64::MAX as nat);
}

pub(crate) proof fn lemma_value(token: TokenView, value: JsonView)
    requires
        token == words::word_token(WordView::Json(value)),
        words::writable(WordView::Json(value)),
        faithful_value(token),
    ensures
        arg_value(token) == Ok::<JsonView, ErrorView>(value),
{
}

pub(crate) proof fn lemma_id(t: Seq<TokenView>, i: int, id: Uuid)
    requires
        0 <= i < t.len(),
        t[i] == words::word_token(WordView::Id(id)),
        faithful_id(t[i]),
    ensures
        arg_uuid(t, i) == Ok::<Uuid, ErrorView>(id),
{
    assert(t[i].text == words::uuid_text(id));
}

pub(crate) proof fn lemma_entries(
    t: Seq<TokenView>,
    from: int,
    entries: Seq<(Seq<char>, JsonView)>,
    k: int,
)
    requires
        0 <= from,
        0 <= k <= entries.len(),
        from + 2 * entries.len() <= t.len(),
        wire_entries(entries),
        forall|j: int|
            0 <= j < entries.len() ==> t[from + 2 * j] == words::word_token(
                words::batch_key((#[trigger] entries[j]).0),
            ) && t[from + 2 * j + 1] == words::word_token(WordView::Json(entries[j].1)),
        faithful_values(t, from, from + 2 * entries.len()),
    ensures
        arg_entries(t, from + 2 * k, from + 2 * entries.len()) == Ok::<
            Seq<(Seq<char>, JsonView)>,
            ErrorView,
        >(entries.skip(k)),
    decreases entries.len() - k,
{
    let end = from + 2 * entries.len();
    if k < entries.len() {
        lemma_entries(t, from, entries, k + 1);
        let i = from + 2 * k;
        assert(wire_name(entries[k].0));
        assert(t[i].text == entries[k].0);
        assert((i + 1 - from) % 2 == 1);
        assert(faithful_value(t[i + 1]));
        lemma_value(t[i + 1], entries[k].1);
        assert(entries.skip(k) =~= seq![entries[k]] + entries.skip(k + 1));
    } else {
        assert(entries.skip(k) =~= Seq::<(Seq<char>, JsonView)>::empty());
    }
}

/// The facts on outside readers that decoding a command rests on.
spec fn faithful_command(t: Seq<TokenView>) -> bool {
    let name = t[0].text;
    &&& name == "AUTH"@ && t.len() == 4 && is_keyword(t, 2, "ADAPTER"@) ==> faithful_id(t[3])
    &&& name == "SET"@ && (t.len() == 4 || t.len() == 6) ==> faithful_value(t[3])
    &&& name == "SET_BATCH"@ && t.len() >= 4 && batch_end(t) > 2 && (batch_end(t) - 2) % 2 == 0
        ==> faithful_values(t, 2, batch_end(t))
}

proof fn lemma_set_batch_of(
    namespace: Seq<char>,
    entries: Seq<(Seq<char>, JsonView)>,
    ttl_seconds: Option<u64>,
)
    requires
        wire_command(CommandView::SetBatch { namespace, entries, ttl_seconds }),
        ({
            let t = words::word_tokens(
                command_words(CommandView::SetBatch { namespace, entries, ttl_seconds }),
            );
            t.len() >= 4 && batch_end(t) > 2 && (batch_end(t) - 2) % 2 == 0 ==> faithful_values(
                t,
                2,
                batch_end(t),
            )
        }),
    ensures
        set_batch_of(
            words::word_tokens(
                command_words(CommandView::SetBatch { namespace, entries, ttl_seconds }),
            ),
        ) == Ok::<CommandView, ErrorView>(
            CommandView::SetBatch { namespace, entries, ttl_seconds },
        ),
{
    let command = CommandView::SetBatch { namespace, entries, ttl_seconds };
    let all = command_words(command);
    let t = words::word_tokens(all);
    let head = starting("SET_BATCH"@).push(WordView::Name(namespace));
    lemma_with_entries(head, entries);
    let end: int = 2 + 2 * (entries.len() as int);
    let last = entries.len() - 1;
    let body = with_entries(head, entries);
    assert(body[2 + 2 * last] == words::batch_key(entries[last].0));
    if let Some(n) = ttl_seconds {
        assert(t[end] == words::word_token(WordView::Keyword("EX"@)));
        lemma_number(t, end + 1, n);
    } else {
        assert(t[end - 2] == words::word_token(words::batch_key(entries[last].0)));
    }
    assert(batch_end(t) == end);
    assert(t[1] == words::word_token(WordView::Name(namespace)));
    assert forall|j: int| 0 <= j < entries.len() implies t[2 + 2 * j] == words::word_token(
        words::batch_key((#[trigger] entries[j]).0),
    ) && t[2 + 2 * j + 1] == words::word_token(WordView::Json(entries[j].1)) by {
        assert(body[2 + 2 * j] == words::batch_key(entries[j].0));
    }
    lemma_entries(t, 2, entries, 0);
    assert(entries.skip(0) =~= entries);
}

proof fn lemma_command_of(command: CommandView)
    requires
        wire_command(command),
        faithful_command(words::word_tokens(command_words(command))),
    ensures
        command_of(words::word_tokens(command_words(command))) == Ok::<CommandView, ErrorView>(
            command,
        ),
{
    lemma_distinct();
    let all = command_words(command);
    let t = words::word_tokens(all);
    assert(t[0] == words::word_token(all[0]));
    match command {
        CommandView::Auth { api_key, adapter_instance } => {
            assert(t[1] == words::word_token(WordView::Name(api_key)));
            if let Some(id) = adapter_instance {
                assert(t[2] == words::word_token(WordView::Keyword("ADAPTER"@)));
                lemma_id(t, 3, id);
                assert(auth_of(t) == Ok::<CommandView, ErrorView>(command));
            } else {
                assert(t.len() == 2);
                assert(auth_of(t) == Ok::<CommandView, ErrorView>(command));
            }
        },
        CommandView::SetValue { namespace, key, value, ttl_seconds } => {
            lemma_value(t[3], value);
            if let Some(n) = ttl_seconds {
                assert(t[4] == words::word_token(WordView::Keyword("EX"@)));
                lemma_number(t, 5, n);
            }
        },
        CommandView::SetBatch { namespace, entries, ttl_seconds } => {
            let head = starting("SET_BATCH"@).push(WordView::Name(namespace));
            lemma_with_entries(head, entries);
            assert(all[0] == head[0]);
            lemma_set_batch_of(namespace, entries, ttl_seconds);
        },
        CommandView::Provide { namespace_pattern, key_pattern, max_rate, timeout, miss_ttl } => {
            let i: int = if max_rate is Some {
                5
            } else {
                3
            };
            let j: int = if timeout is Some {
                i + 2
            } else {
                i
            };
            if let Some(n) = max_rate {
                assert(t[3] == words::word_token(WordView::Keyword("MAX_RATE"@)));
                lemma_number(t, 4, n as u64);
            }
            if let Some(n) = timeout {
                assert(t[i] == words::word_token(WordView::Keyword("TIMEOUT"@)));
                lemma_number(t, i + 1, n);
            }
            if let Some(n) = miss_ttl {
                assert(t[j] == words::word_token(WordView::Keyword("MISS_TTL"@)));
                lemma_number(t, j + 1, n);
            }
        },
        _ => {},
    }
}

/// Reads a command from a frame. A command that the wire can carry is read back
/// from the frame that [`encode_command`] writes for it.
pub fn decode_command(frame: &str) -> (r: Result<Command, Error>)
    ensures
        crate::error::outcome(r) == decoded_command(frame@),
        forall|command: CommandView|
            #![trigger encoded_command(command)]
            wire_command(command) && encoded_command(command) == Ok::<Seq<char>, ErrorView>(frame@)
                && wire::byte_length(frame@) <= wire::MAX_FRAME_BYTES ==> crate::error::outcome(r)
                == Ok::<CommandView, ErrorView>(command),
{
    let scanned = wire::tokens(frame);
    proof {
        assert forall|command: CommandView|
            #![trigger encoded_command(command)]
            wire_command(command) && encoded_command(command) == Ok::<Seq<char>, ErrorView>(frame@)
                && wire::byte_length(frame@) <= wire::MAX_FRAME_BYTES implies wire::frame_words(
            frame@,
        ) == Ok::<Seq<TokenView>, ErrorView>(words::word_tokens(command_words(command))) by {
            lemma_command_writable(command);
            words::scan_conditions(command_words(command));
            words::scan_after_write(command_words(command));
        }
    }
    let t = match scanned {
        Ok(t) => t,
        Err(error) => {
            return Err(error);
        },
    };
    let ghost views = token_views(t@);
    let r = dispatch_command(&t);
    proof {
        assert forall|command: CommandView|
            #![trigger encoded_command(command)]
            wire_command(command) && encoded_command(command) == Ok::<Seq<char>, ErrorView>(frame@)
                && wire::byte_length(frame@) <= wire::MAX_FRAME_BYTES implies command_of(views)
            == Ok::<CommandView, ErrorView>(command) by {
            lemma_command_writable(command);
            assert(views[0] == words::word_token(command_words(command)[0]));
            lemma_command_of(command);
        }
    }
    r
}

fn dispatch_command(t: &Vec<Token>) -> (r: Result<Command, Error>)
    requires
        t.len() > 0,
    ensures
        crate::error::outcome(r) == command_of(token_views(t@)),
        !token_views(t@)[0].quoted ==> faithful_command(token_views(t@)),
{
    proof {
        lemma_distinct();
    }
    if t[0].quoted {
        return Err(protocol("command keyword must be unquoted"));
    }
    let name = t[0].text.as_str();
    if text::same(name, "AUTH") {
        decode_auth(t)
    } else if text::same(name, "GET") {
        decode_get(t)
    } else if text::same(name, "SET") {
        decode_set(t)
    } else if text::same(name, "SET_BATCH") {
        decode_set_batch(t)
    } else if text::same(name, "DELETE") {
        decode_delete(t)
    } else if text::same(name, "MOVE") {
        decode_move(t)
    } else if text::same(name, "PROVIDE") {
        decode_provide(t)
    } else if text::same(name, "STORE") {
        decode_store(t)
    } else if text::same(name, "PING") {
        if t.len() != 1 {
            return Err(protocol("unexpected number of arguments"));
        }
        Ok(Command::Ping)
    } else if text::same(name, "STATS") {
        if t.len() != 1 {
            return Err(protocol("unexpected number of arguments"));
        }
        Ok(Command::Stats)
    } else {
        Err(protocol("unknown command"))
    }
}

/// A command that changes or registers something.
pub open spec fn is_operation(command: CommandView) -> bool {
    match command {
        CommandView::SetValue { .. } => true,
        CommandView::SetBatch { .. } => true,
        CommandView::Delete { .. } => true,
        CommandView::Move { .. } => true,
        CommandView::Provide { .. } => true,
        CommandView::Store { .. } => true,
        _ => false,
    }
}

/// The kinds of answer that a command can have.
pub open spec fn answer_fits(command: CommandView, response: ResponseView) -> bool {
    match response {
        ResponseView::Okay => is_operation(command),
        ResponseView::Value { .. } => command is Get,
        ResponseView::Miss { .. } => command is Get,
        ResponseView::Unknown => command is Get,
        ResponseView::AuthSuccess { .. } => command is Auth,
        ResponseView::AuthPending { .. } => command is Auth,
        ResponseView::AuthFailure { .. } => command is Auth,
        ResponseView::Pong => command is Ping,
        ResponseView::Stats(_) => command is Stats,
        ResponseView::Error { .. } => !(command is Auth),
    }
}

fn operation(command: &Command) -> (r: bool)
    ensures
        r == is_operation(command@),
{
    match command {
        Command::SetValue { .. } => true,
        Command::SetBatch { .. } => true,
        Command::Delete { .. } => true,
        Command::Move { .. } => true,
        Command::Provide { .. } => true,
        Command::Store { .. } => true,
        _ => false,
    }
}

fn answer_allowed(command: &Command, response: &Response) -> (r: bool)
    ensures
        r == answer_fits(command@, response@),
{
    match response {
        Response::Okay => operation(command),
        Response::Value { .. } => matches!(command, Command::Get { .. }),
        Response::Miss { .. } => matches!(command, Command::Get { .. }),
        Response::Unknown => matches!(command, Command::Get { .. }),
        Response::AuthSuccess { .. } => matches!(command, Command::Auth { .. }),
        Response::AuthPending { .. } => matches!(command, Command::Auth { .. }),
        Response::AuthFailure { .. } => matches!(command, Command::Auth { .. }),
        Response::Pong => matches!(command, Command::Ping),
        Response::Stats(_) => matches!(command, Command::Stats),
        Response::Error { .. } => !matches!(command, Command::Auth { .. }),
    }
}

/// The words of an answer to a command.
pub open spec fn response_words(command: CommandView, response: ResponseView) -> Seq<WordView> {
    match response {
        ResponseView::Okay => starting("OK"@),
        ResponseView::Value { value, ttl_seconds } => match command {
            CommandView::Get { namespace, key } => with_ttl(
                starting("SET"@).push(WordView::Name(namespace)).push(WordView::Name(key)).push(
                    WordView::Json(value),
                ),
                ttl_seconds,
            ),
            _ => Seq::empty(),
        },
        ResponseView::Miss { retry_after_ms } => starting("MISS"@).push(
            WordView::Number(retry_after_ms as nat),
        ),
        ResponseView::AuthPending { retry_after_ms } => starting("MISS"@).push(
            WordView::Number(retry_after_ms as nat),
        ),
        ResponseView::Unknown => starting("UNKNOWN"@),
        ResponseView::AuthSuccess { client_id, session_ttl_seconds } => starting("OK"@).push(
            WordView::Name(client_id),
        ).push(WordView::Keyword("TTL"@)).push(WordView::Number(session_ttl_seconds as nat)),
        ResponseView::AuthFailure { message } => starting("KO"@).push(WordView::Name(message)),
        ResponseView::Error { message } => starting("KO"@).push(WordView::Name(message)),
        ResponseView::Pong => starting("PONG"@),
        ResponseView::Stats(stats) => starting("STATS"@).push(WordView::Keyword("REQUESTS"@)).push(
            WordView::Number(stats.requests as nat),
        ).push(WordView::Keyword("HITS"@)).push(WordView::Number(stats.hits as nat)).push(
            WordView::Keyword("MISSES"@),
        ).push(WordView::Number(stats.misses as nat)).push(WordView::Keyword("VALUES"@)).push(
            WordView::Number(stats.values as nat),
        ),
    }
}

/// The frame of an answer to a command, or why it has none.
pub open spec fn encoded_response(command: CommandView, response: ResponseView) -> Result<
    Seq<char>,
    ErrorView,
> {
    if answer_fits(command, response) {
        Ok(words::line(response_words(command, response)))
    } else {
        refused("answer does not match command"@)
    }
}

/// Writes the answer to a command as a frame.
pub fn encode_response(command: &Command, response: &Response) -> (r: Result<String, Error>)
    ensures
        crate::error::outcome(r) == encoded_response(command@, response@),
{
    if !answer_allowed(command, response) {
        return Err(protocol("answer does not match command"));
    }
    match response {
        Response::Okay => Ok(Line::start("OK").text),
        Response::Value { value, ttl_seconds } => match command {
            Command::Get { namespace, key } => {
                let mut line = Line::start("SET");
                line.name(namespace.as_str());
                line.name(key.as_str());
                line.json(value);
                add_ttl(&mut line, *ttl_seconds);
                Ok(line.text)
            },
            _ => Err(protocol("VALUE answer requires GET context")),
        },
        Response::Miss { retry_after_ms } => {
            let mut line = Line::start("MISS");
            line.number(*retry_after_ms);
            Ok(line.text)
        },
        Response::AuthPending { retry_after_ms } => {
            let mut line = Line::start("MISS");
            line.number(*retry_after_ms);
            Ok(line.text)
        },
        Response::Unknown => Ok(Line::start("UNKNOWN").text),
        Response::AuthSuccess { client_id, session_ttl_seconds } => {
            let mut line = Line::start("OK");
            line.name(client_id.as_str());
            line.keyword("TTL");
            line.number(*session_ttl_seconds);
            Ok(line.text)
        },
        Response::AuthFailure { message } => {
            let mut line = Line::start("KO");
            line.name(message.as_str());
            Ok(line.text)
        },
        Response::Error { message } => {
            let mut line = Line::start("KO");
            line.name(message.as_str());
            Ok(line.text)
        },
        Response::Pong => Ok(Line::start("PONG").text),
        Response::Stats(stats) => {
            let mut line = Line::start("STATS");
            line.keyword("REQUESTS");
            line.number(stats.requests);
            line.keyword("HITS");
            line.number(stats.hits);
            line.keyword("MISSES");
            line.number(stats.misses);
            line.keyword("VALUES");
            line.number(stats.values);
            Ok(line.text)
        },
    }
}

/// The words of the answer to a successful authentication.
pub open spec fn success_of(t: Seq<TokenView>) -> Result<ResponseView, ErrorView> {
    if t.len() != 4 {
        wrong_count()
    } else {
        match expect_keyword(t, 2, "TTL"@) {
            Err(error) => Err(error),
            Ok(_) => match arg_number(t, 3) {
                Err(error) => Err(error),
                Ok(n) => Ok(
                    ResponseView::AuthSuccess { client_id: t[1].text, session_ttl_seconds: n },
                ),
            },
        }
    }
}

/// The words of the answer that carries a value.
pub open spec fn value_answer_of(command: CommandView, t: Seq<TokenView>) -> Result<
    ResponseView,
    ErrorView,
> {
    if !(t.len() == 4 || t.len() == 6) {
        refused("invalid SET answer"@)
    } else {
        match command {
            CommandView::Get { namespace, key } => if t[1].text != namespace || t[2].text != key {
                refused("SET answer route mismatch"@)
            } else {
                match arg_value(t[3]) {
                    Err(error) => Err(error),
                    Ok(value) => match arg_ttl(t, 4) {
                        Err(error) => Err(error),
                        Ok(ttl_seconds) => Ok(ResponseView::Value { value, ttl_seconds }),
                    },
                }
            },
            _ => refused("SET answer requires GET context"@),
        }
    }
}

/// The words of the answer that reports a miss.
pub open spec fn miss_of(command: CommandView, t: Seq<TokenView>) -> Result<
    ResponseView,
    ErrorView,
> {
    if t.len() != 2 {
        wrong_count()
    } else {
        match arg_number(t, 1) {
            Err(error) => Err(error),
            Ok(n) => if command is Auth {
                Ok(ResponseView::AuthPending { retry_after_ms: n })
            } else if command is Get {
                Ok(ResponseView::Miss { retry_after_ms: n })
            } else {
                refused("MISS answer has invalid context"@)
            },
        }
    }
}

/// The words of the answer that carries counters.
pub open spec fn stats_of(command: CommandView, t: Seq<TokenView>) -> Result<
    ResponseView,
    ErrorView,
> {
    if t.len() != 9 {
        wrong_count()
    } else if !(command is Stats) {
        refused("STATS answer has invalid context"@)
    } else if expect_keyword(t, 1, "REQUESTS"@) is Err {
        refused("expected REQUESTS"@)
    } else if expect_keyword(t, 3, "HITS"@) is Err {
        refused("expected HITS"@)
    } else if expect_keyword(t, 5, "MISSES"@) is Err {
        refused("expected MISSES"@)
    } else if expect_keyword(t, 7, "VALUES"@) is Err {
        refused("expected VALUES"@)
    } else {
        match (arg_number(t, 2), arg_number(t, 4), arg_number(t, 6), arg_number(t, 8)) {
            (Ok(requests), Ok(hits), Ok(misses), Ok(values)) => Ok(
                ResponseView::Stats(Stats { requests, hits, misses, values }),
            ),
            _ => refused("invalid unsigned integer"@),
        }
    }
}

/// The words of the answer that reports a failure.
pub open spec fn failure_of(command: CommandView, t: Seq<TokenView>) -> Result<
    ResponseView,
    ErrorView,
> {
    if t.len() != 2 {
        refused("invalid KO answer"@)
    } else if command is Auth {
        Ok(ResponseView::AuthFailure { message: t[1].text })
    } else {
        Ok(ResponseView::Error { message: t[1].text })
    }
}

/// The words of an answer without arguments.
pub open spec fn plain_answer_of(
    fits: bool,
    t: Seq<TokenView>,
    response: ResponseView,
    message: Seq<char>,
) -> Result<ResponseView, ErrorView> {
    if t.len() != 1 {
        wrong_count()
    } else if fits {
        Ok(response)
    } else {
        refused(message)
    }
}

/// The answer to a command that the words of a frame write.
pub open spec fn response_of(command: CommandView, t: Seq<TokenView>) -> Result<
    ResponseView,
    ErrorView,
> {
    let name = t[0].text;
    if t[0].quoted {
        refused("answer keyword must be unquoted"@)
    } else if name == "OK"@ && command is Auth {
        success_of(t)
    } else if name == "OK"@ && is_operation(command) {
        if t.len() != 1 {
            wrong_count()
        } else {
            Ok(ResponseView::Okay)
        }
    } else if name == "SET"@ {
        value_answer_of(command, t)
    } else if name == "MISS"@ {
        miss_of(command, t)
    } else if name == "UNKNOWN"@ {
        plain_answer_of(
            command is Get,
            t,
            ResponseView::Unknown,
            "UNKNOWN answer has invalid context"@,
        )
    } else if name == "PONG"@ {
        plain_answer_of(
            command is Ping,
            t,
            ResponseView::Pong,
            "PONG answer has invalid context"@,
        )
    } else if name == "STATS"@ {
        stats_of(command, t)
    } else if name == "KO"@ {
        failure_of(command, t)
    } else {
        refused("answer does not match command"@)
    }
}

/// The answer to a command that a frame writes.
pub open spec fn decoded_response(command: CommandView, frame: Seq<char>) -> Result<
    ResponseView,
    ErrorView,
> {
    match wire::frame_words(frame) {
        Err(error) => Err(error),
        Ok(t) => response_of(command, t),
    }
}

fn decode_success(t: &Vec<Token>) -> (r: Result<Response, Error>)
    ensures
        crate::error::outcome(r) == success_of(token_views(t@)),
{
    if t.len() != 4 {
        return Err(protocol("unexpected number of arguments"));
    }
    match keyword(t, 2, "TTL") {
        Err(error) => Err(error),
        Ok(_) => match number(t, 3) {
            Err(error) => Err(error),
            Ok(n) => Ok(
                Response::AuthSuccess { client_id: t[1].text.clone(), session_ttl_seconds: n },
            ),
        },
    }
}

fn decode_value_answer(command: &Command, t: &Vec<Token>) -> (r: Result<Response, Error>)
    ensures
        crate::error::outcome(r) == value_answer_of(command@, token_views(t@)),
        t.len() == 4 || t.len() == 6 ==> faithful_value(token_views(t@)[3]),
{
    if !(t.len() == 4 || t.len() == 6) {
        return Err(protocol("invalid SET answer"));
    }
    let parsed = value(&t[3]);
    match command {
        Command::Get { namespace, key } => {
            if !text::same(t[1].text.as_str(), namespace.as_str()) || !text::same(
                t[2].text.as_str(),
                key.as_str(),
            ) {
                return Err(protocol("SET answer route mismatch"));
            }
            match parsed {
                Err(error) => Err(error),
                Ok(value) => match ttl(t, 4) {
                    Err(error) => Err(error),
                    Ok(ttl_seconds) => Ok(Response::Value { value, ttl_seconds }),
                },
            }
        },
        _ => Err(protocol("SET answer requires GET context")),
    }
}

fn decode_miss(command: &Command, t: &Vec<Token>) -> (r: Result<Response, Error>)
    ensures
        crate::error::outcome(r) == miss_of(command@, token_views(t@)),
{
    if t.len() != 2 {
        return Err(protocol("unexpected number of arguments"));
    }
    match number(t, 1) {
        Err(error) => Err(error),
        Ok(n) => if matches!(command, Command::Auth { .. }) {
            Ok(Response::AuthPending { retry_after_ms: n })
        } else if matches!(command, Command::Get { .. }) {
            Ok(Response::Miss { retry_after_ms: n })
        } else {
            Err(protocol("MISS answer has invalid context"))
        },
    }
}

fn decode_stats(command: &Command, t: &Vec<Token>) -> (r: Result<Response, Error>)
    ensures
        crate::error::outcome(r) == stats_of(command@, token_views(t@)),
{
    if t.len() != 9 {
        return Err(protocol("unexpected number of arguments"));
    }
    if !matches!(command, Command::Stats) {
        return Err(protocol("STATS answer has invalid context"));
    }
    if keyword(t, 1, "REQUESTS").is_err() {
        return Err(protocol("expected REQUESTS"));
    }
    if keyword(t, 3, "HITS").is_err() {
        return Err(protocol("expected HITS"));
    }
    if keyword(t, 5, "MISSES").is_err() {
        return Err(protocol("expected MISSES"));
    }
    if keyword(t, 7, "VALUES").is_err() {
        return Err(protocol("expected VALUES"));
    }
    match (number(t, 2), number(t, 4), number(t, 6), number(t, 8)) {
        (Ok(requests), Ok(hits), Ok(misses), Ok(values)) => Ok(
            Response::Stats(Stats { requests, hits, misses, values }),
        ),
        _ => Err(protocol("invalid unsigned integer")),
    }
}

fn decode_failure(command: &Command, t: &Vec<Token>) -> (r: Result<Response, Error>)
    ensures
        crate::error::outcome(r) == failure_of(command@, token_views(t@)),
{
    if t.len() != 2 {
        return Err(protocol("invalid KO answer"));
    }
    let message = t[1].text.clone();
    if matches!(command, Command::Auth { .. }) {
        Ok(Response::AuthFailure { message })
    } else {
        Ok(Response::Error { message })
    }
}

/// An answer that the wire gives back.
pub open spec fn wire_response(response: ResponseView) -> bool {
    match response {
        ResponseView::Value { value, .. } => words::writable(WordView::Json(value)),
        ResponseView::AuthSuccess { client_id, .. } => words::wire_text(client_id),
        ResponseView::AuthFailure { message } => words::wire_text(message),
        ResponseView::Error { message } => words::wire_text(message),
        _ => true,
    }
}

proof fn lemma_answer_literals()
    ensures
        words::bare("OK"@),
        words::bare("KO"@),
        words::bare("SET"@),
        words::bare("MISS"@),
        words::bare("UNKNOWN"@),
        words::bare("PONG"@),
        words::bare("STATS"@),
        words::bare("TTL"@),
        words::bare("EX"@),
        words::bare("REQUESTS"@),
        words::bare("HITS"@),
        words::bare("MISSES"@),
        words::bare("VALUES"@),
        "OK"@ != "SET"@,
        "OK"@ != "MISS"@,
        "OK"@ != "UNKNOWN"@,
        "OK"@ != "PONG"@,
        "OK"@ != "STATS"@,
        "OK"@ != "KO"@,
        "SET"@ != "MISS"@,
        "SET"@ != "UNKNOWN"@,
        "SET"@ != "PONG"@,
        "SET"@ != "STATS"@,
        "SET"@ != "KO"@,
        "MISS"@ != "UNKNOWN"@,
        "MISS"@ != "PONG"@,
        "MISS"@ != "STATS"@,
        "MISS"@ != "KO"@,
        "UNKNOWN"@ != "PONG"@,
        "UNKNOWN"@ != "STATS"@,
        "UNKNOWN"@ != "KO"@,
        "PONG"@ != "STATS"@,
        "PONG"@ != "KO"@,
        "STATS"@ != "KO"@,
{
    lemma_keywords_bare();
    lemma_literals();
    reveal_strlit("OK");
    reveal_strlit("KO");
    reveal_strlit("MISS");
    reveal_strlit("UNKNOWN");
    reveal_strlit("PONG");
    reveal_strlit("TTL");
    reveal_strlit("REQUESTS");
    reveal_strlit("HITS");
    reveal_strlit("MISSES");
    reveal_strlit("VALUES");
    assert("OK"@[0] == 'O' && "OK"@.len() == 2);
    assert("KO"@[0] == 'K' && "KO"@.len() == 2);
    assert("SET"@[0] == 'S' && "SET"@.len() == 3);
    assert("MISS"@[0] == 'M' && "MISS"@.len() == 4);
    assert("UNKNOWN"@[0] == 'U' && "UNKNOWN"@.len() == 7);
    assert("PONG"@[0] == 'P' && "PONG"@.len() == 4);
    assert("STATS"@[0] == 'S' && "STATS"@.len() == 5);
}

/// The facts on outside readers that decoding an answer rests on.
spec fn faithful_response(t: Seq<TokenView>) -> bool {
    t[0].text == "SET"@ && (t.len() == 4 || t.len() == 6) ==> faithful_value(t[3])
}

proof fn lemma_response_of(command: CommandView, response: ResponseView)
    requires
        wire_command(command),
        wire_response(response),
        answer_fits(command, response),
        faithful_response(words::word_tokens(response_words(command, response))),
    ensures
        response_of(command, words::word_tokens(response_words(command, response))) == Ok::<
            ResponseView,
            ErrorView,
        >(response),
{
    lemma_answer_literals();
    let all = response_words(command, response);
    let t = words::word_tokens(all);
    assert(t[0] == words::word_token(all[0]));
    match response {
        ResponseView::Value { value, ttl_seconds } => {
            lemma_value(t[3], value);
            assert(t[1] == words::word_token(all[1]));
            assert(t[2] == words::word_token(all[2]));
            if let Some(n) = ttl_seconds {
                assert(t[4] == words::word_token(WordView::Keyword("EX"@)));
                lemma_number(t, 5, n);
            }
        },
        ResponseView::Miss { retry_after_ms } => {
            lemma_number(t, 1, retry_after_ms);
        },
        ResponseView::AuthPending { retry_after_ms } => {
            lemma_number(t, 1, retry_after_ms);
        },
        ResponseView::AuthSuccess { client_id, session_ttl_seconds } => {
            assert(t[1] == words::word_token(all[1]));
            assert(t[2] == words::word_token(WordView::Keyword("TTL"@)));
            lemma_number(t, 3, session_ttl_seconds);
        },
        ResponseView::Stats(stats) => {
            assert(t[1] == words::word_token(WordView::Keyword("REQUESTS"@)));
            assert(t[3] == words::word_token(WordView::Keyword("HITS"@)));
            assert(t[5] == words::word_token(WordView::Keyword("MISSES"@)));
            assert(t[7] == words::word_token(WordView::Keyword("VALUES"@)));
            lemma_number(t, 2, stats.requests);
            lemma_number(t, 4, stats.hits);
            lemma_number(t, 6, stats.misses);
            lemma_number(t, 8, stats.values);
        },
        ResponseView::AuthFailure { message } => {
            assert(t[1] == words::word_token(all[1]));
        },
        ResponseView::Error { message } => {
            assert(t[1] == words::word_token(all[1]));
        },
        _ => {},
    }
}

/// Reads the answer to a command from a frame. An answer that the wire can carry
/// is read back from the frame that [`encode_response`] writes for it.
pub fn decode_response(command: &Command, frame: &str) -> (r: Result<Response, Error>)
    ensures
        crate::error::outcome(r) == decoded_response(command@, frame@),
        forall|response: ResponseView|
            #![trigger encoded_response(command@, response)]
            wire_command(command@) && wire_response(response) && encoded_response(
                command@,
                response,
            ) == Ok::<Seq<char>, ErrorView>(frame@) && wire::byte_length(frame@)
                <= wire::MAX_FRAME_BYTES ==> crate::error::outcome(r) == Ok::<
                ResponseView,
                ErrorView,
            >(response),
{
    let scanned = wire::tokens(frame);
    proof {
        assert forall|response: ResponseView|
            #![trigger encoded_response(command@, response)]
            wire_command(command@) && wire_response(response) && encoded_response(
                command@,
                response,
            ) == Ok::<Seq<char>, ErrorView>(frame@) && wire::byte_length(frame@)
                <= wire::MAX_FRAME_BYTES implies wire::frame_words(frame@) == Ok::<
            Seq<TokenView>,
            ErrorView,
        >(words::word_tokens(response_words(command@, response))) by {
            lemma_answer_literals();
            words::scan_conditions(response_words(command@, response));
            words::scan_after_write(response_words(command@, response));
        }
    }
    let t = match scanned {
        Ok(t) => t,
        Err(error) => {
            return Err(error);
        },
    };
    let ghost views = token_views(t@);
    let r = dispatch_response(command, &t);
    proof {
        assert forall|response: ResponseView|
            #![trigger encoded_response(command@, response)]
            wire_command(command@) && wire_response(response) && encoded_response(
                command@,
                response,
            ) == Ok::<Seq<char>, ErrorView>(frame@) && wire::byte_length(frame@)
                <= wire::MAX_FRAME_BYTES implies response_of(command@, views) == Ok::<
            ResponseView,
            ErrorView,
        >(response) by {
            assert(views[0] == words::word_token(response_words(command@, response)[0]));
            lemma_response_of(command@, response);
        }
    }
    r
}

fn dispatch_response(command: &Command, t: &Vec<Token>) -> (r: Result<Response, Error>)
    requires
        t.len() > 0,
    ensures
        crate::error::outcome(r) == response_of(command@, token_views(t@)),
        !token_views(t@)[0].quoted ==> faithful_response(token_views(t@)),
{
    proof {
        lemma_answer_literals();
    }
    if t[0].quoted {
        return Err(protocol("answer keyword must be unquoted"));
    }
    let name = t[0].text.as_str();
    if text::same(name, "OK") && matches!(command, Command::Auth { .. }) {
        decode_success(t)
    } else if text::same(name, "OK") && operation(command) {
        if t.len() != 1 {
            return Err(protocol("unexpected number of arguments"));
        }
        Ok(Response::Okay)
    } else if text::same(name, "SET") {
        decode_value_answer(command, t)
    } else if text::same(name, "MISS") {
        decode_miss(command, t)
    } else if text::same(name, "UNKNOWN") {
        if t.len() != 1 {
            return Err(protocol("unexpected number of arguments"));
        }
        if !matches!(command, Command::Get { .. }) {
            return Err(protocol("UNKNOWN answer has invalid context"));
        }
        Ok(Response::Unknown)
    } else if text::same(name, "PONG") {
        if t.len() != 1 {
            return Err(protocol("unexpected number of arguments"));
        }
        if !matches!(command, Command::Ping) {
            return Err(protocol("PONG answer has invalid context"));
        }
        Ok(Response::Pong)
    } else if text::same(name, "STATS") {
        decode_stats(command, t)
    } else if text::same(name, "KO") {
        decode_failure(command, t)
    } else {
        Err(protocol("answer does not match command"))
    }
}

} // verus!
