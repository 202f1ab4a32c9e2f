//! How the frames of the protocol are read: word by word, and nothing else is accepted.

use crate::error::ErrorView;
use crate::json::{self, JsonView};
use crate::line_callback;
use crate::line_protocol as frames;
use crate::protocol::{
    CommandView, ResponseView, ServerCommandView, ServerResultView, Uuid,
};
use crate::text;
use crate::wire::{self, TokenView};
use crate::words;
use vstd::prelude::*;

verus! {

/// A keyword: a word without quotation marks.
pub open spec fn is_keyword(token: TokenView, keyword: Seq<char>) -> bool {
    !token.quoted && token.text == keyword
}

/// A number that a word is.
pub open spec fn is_number(token: TokenView, n: u64) -> bool {
    text::unsigned_value(token.text, u64::MAX as nat) == Some(n as nat)
}

/// An identifier that a word is, in the one way that it is written.
pub open spec fn is_id(token: TokenView, id: Uuid) -> bool {
    words::uuid_value(token.text) == Some(id) && token.text == words::uuid_text(id)
}

/// A name that a word is; no name is empty.
pub open spec fn is_name(token: TokenView, name: Seq<char>) -> bool {
    token.text == name && name.len() > 0
}

/// A value that a word is: between quotation marks a string, else what its JSON reads as.
pub open spec fn is_value(token: TokenView, value: JsonView) -> bool {
    if token.quoted {
        value == JsonView::Text(token.text)
    } else {
        json::read(token.text) == Some(value)
    }
}

/// The words from a position on are a time to live, or there are none.
pub open spec fn ends_with(t: Seq<TokenView>, i: int, ttl_seconds: Option<u64>) -> bool {
    match ttl_seconds {
        Some(n) => t.len() == i + 2 && is_keyword(t[i], "EX"@) && is_number(t[i + 1], n),
        None => t.len() == i,
    }
}

/// An option stands at a position, where there is one.
pub open spec fn has_option(
    t: Seq<TokenView>,
    i: int,
    keyword: Seq<char>,
    value: Option<u64>,
) -> bool {
    value matches Some(n) ==> i + 1 < t.len() && is_keyword(t[i], keyword) && is_number(t[i + 1], n)
}

/// The words that an option takes.
pub open spec fn taken(value: Option<u64>) -> int {
    if value is Some {
        2
    } else {
        0
    }
}

/// The words from a position on are the keys and values of entries, and behind them
/// the time to live.
pub open spec fn are_entries(
    t: Seq<TokenView>,
    i: int,
    entries: Seq<(Seq<char>, JsonView)>,
    ttl_seconds: Option<u64>,
) -> bool {
    let end = i + 2 * entries.len();
    &&& entries.len() > 0
    &&& ends_with(t, end, ttl_seconds)
    &&& ttl_seconds is None ==> !is_keyword(t[end - 2], "EX"@)
    &&& forall|k: int|
        #![trigger entries[k]]
        0 <= k < entries.len() ==> is_name(t[i + 2 * k], entries[k].0) && is_value(
            t[i + 2 * k + 1],
            entries[k].1,
        )
}

/// The words are those of a command.
pub open spec fn are_command(t: Seq<TokenView>, command: CommandView) -> bool {
    match command {
        CommandView::Auth { api_key, adapter_instance } => {
            &&& is_keyword(t[0], "AUTH"@)
            &&& t[1].text == api_key
            &&& match adapter_instance {
                Some(id) => t.len() == 4 && is_keyword(t[2], "ADAPTER"@) && is_id(t[3], id),
                None => t.len() == 2,
            }
        },
        CommandView::Get { namespace, key } => {
            &&& t.len() == 3
            &&& is_keyword(t[0], "GET"@)
            &&& is_name(t[1], namespace)
            &&& is_name(t[2], key)
        },
        CommandView::SetValue { namespace, key, value, ttl_seconds } => {
            &&& is_keyword(t[0], "SET"@)
            &&& ends_with(t, 4, ttl_seconds)
            &&& is_name(t[1], namespace)
            &&& is_name(t[2], key)
            &&& is_value(t[3], value)
        },
        CommandView::SetBatch { namespace, entries, ttl_seconds } => {
            &&& is_keyword(t[0], "SET_BATCH"@)
            &&& is_name(t[1], namespace)
            &&& are_entries(t, 2, entries, ttl_seconds)
        },
        CommandView::Delete { namespace, key_pattern } => {
            &&& is_keyword(t[0], "DELETE"@)
            &&& is_name(t[1], namespace)
            &&& match key_pattern {
                Some(pattern) => t.len() == 3 && is_name(t[2], pattern),
                None => t.len() == 2,
            }
        },
        CommandView::Move { source, destination } => {
            &&& t.len() == 3
            &&& is_keyword(t[0], "MOVE"@)
            &&& is_name(t[1], source)
            &&& is_name(t[2], destination)
        },
        CommandView::Provide { namespace_pattern, key_pattern, max_rate, timeout, miss_ttl } => {
            let rate = match max_rate {
                Some(n) => Some(n as u64),
                None => None,
            };
            &&& t.len() == 3 + taken(rate) + taken(timeout) + taken(miss_ttl)
            &&& is_keyword(t[0], "PROVIDE"@)
            &&& is_name(t[1], namespace_pattern)
            &&& is_name(t[2], key_pattern)
            &&& has_option(t, 3, "MAX_RATE"@, rate)
            &&& has_option(t, 3 + taken(rate), "TIMEOUT"@, timeout)
            &&& has_option(t, 3 + taken(rate) + taken(timeout), "MISS_TTL"@, miss_ttl)
        },
        CommandView::Store { namespace_pattern, key_pattern } => {
            &&& t.len() == 3
            &&& is_keyword(t[0], "STORE"@)
            &&& is_name(t[1], namespace_pattern)
            &&& is_name(t[2], key_pattern)
        },
        CommandView::Ping => t.len() == 1 && is_keyword(t[0], "PING"@),
        CommandView::Stats => t.len() == 1 && is_keyword(t[0], "STATS"@),
    }
}

proof fn lemma_keywords()
    ensures
        "AUTH"@.len() == 4 && "AUTH"@[0] == 'A',
        "GET"@.len() == 3 && "GET"@[0] == 'G',
        "SET"@.len() == 3 && "SET"@[0] == 'S',
        "SET_BATCH"@.len() == 9,
        "DELETE"@.len() == 6,
        "MOVE"@.len() == 4 && "MOVE"@[0] == 'M' && "MOVE"@[1] == 'O',
        "PROVIDE"@.len() == 7,
        "STORE"@.len() == 5 && "STORE"@[2] == 'O',
        "PING"@.len() == 4 && "PING"@[0] == 'P' && "PING"@[1] == 'I',
        "STATS"@.len() == 5 && "STATS"@[2] == 'A',
        "MAX_RATE"@.len() == 8 && "MAX_RATE"@[1] == 'A',
        "TIMEOUT"@.len() == 7,
        "MISS_TTL"@.len() == 8 && "MISS_TTL"@[1] == 'I',
        "OK"@.len() == 2 && "OK"@[0] == 'O',
        "KO"@.len() == 2 && "KO"@[0] == 'K',
        "MISS"@.len() == 4 && "MISS"@[0] == 'M' && "MISS"@[1] == 'I',
        "UNKNOWN"@.len() == 7,
        "PONG"@.len() == 4 && "PONG"@[0] == 'P' && "PONG"@[1] == 'O',
        "QUERY"@.len() == 5,
        "PERSIST_SET"@.len() == 11,
        "PERSIST_SET_BATCH"@.len() == 17,
        "PERSIST_DELETE"@.len() == 14,
        "PERSIST_MOVE"@.len() == 12,
{
    reveal_strlit("AUTH");
    reveal_strlit("GET");
    reveal_strlit("SET");
    reveal_strlit("SET_BATCH");
    reveal_strlit("DELETE");
    reveal_strlit("MOVE");
    reveal_strlit("PROVIDE");
    reveal_strlit("STORE");
    reveal_strlit("PING");
    reveal_strlit("STATS");
    reveal_strlit("MAX_RATE");
    reveal_strlit("TIMEOUT");
    reveal_strlit("MISS_TTL");
    reveal_strlit("OK");
    reveal_strlit("KO");
    reveal_strlit("MISS");
    reveal_strlit("UNKNOWN");
    reveal_strlit("PONG");
    reveal_strlit("QUERY");
    reveal_strlit("PERSIST_SET");
    reveal_strlit("PERSIST_SET_BATCH");
    reveal_strlit("PERSIST_DELETE");
    reveal_strlit("PERSIST_MOVE");
}

proof fn lemma_number(t: Seq<TokenView>, i: int, n: u64)
    requires
        0 <= i,
    ensures
        frames::arg_number(t, i) == Ok::<u64, ErrorView>(n) <==> i < t.len() && is_number(t[i], n),
{
}

proof fn lemma_id(t: Seq<TokenView>, i: int, id: Uuid)
    requires
        0 <= i,
    ensures
        frames::arg_uuid(t, i) == Ok::<Uuid, ErrorView>(id) <==> i < t.len() && is_id(t[i], id),
{
}

proof fn lemma_value(token: TokenView, value: JsonView)
    ensures
        frames::arg_value(token) == Ok::<JsonView, ErrorView>(value) <==> is_value(token, value),
{
}

proof fn lemma_ttl(t: Seq<TokenView>, i: int, ttl_seconds: Option<u64>)
    requires
        0 <= i,
        t.len() == i || t.len() == i + 2,
    ensures
        frames::arg_ttl(t, i) == Ok::<Option<u64>, ErrorView>(ttl_seconds) <==> ends_with(
            t,
            i,
            ttl_seconds,
        ),
{
    if let Some(n) = ttl_seconds {
        lemma_number(t, i + 1, n);
    }
}

proof fn lemma_entries(
    t: Seq<TokenView>,
    i: int,
    end: int,
    entries: Seq<(Seq<char>, JsonView)>,
)
    requires
        0 <= i <= end <= t.len(),
        (end - i) % 2 == 0,
    ensures
        frames::arg_entries(t, i, end) == Ok::<Seq<(Seq<char>, JsonView)>, ErrorView>(entries)
            <==> end == i + 2 * entries.len() && forall|k: int|
            #![trigger entries[k]]
            0 <= k < entries.len() ==> is_name(t[i + 2 * k], entries[k].0) && is_value(
                t[i + 2 * k + 1],
                entries[k].1,
            ),
    decreases end - i,
{
    if i < end {
        if entries.len() > 0 {
            let rest = entries.skip(1);
            lemma_value(t[i + 1], entries[0].1);
            lemma_entries(t, i + 2, end, rest);
            assert(entries =~= seq![entries[0]] + rest);
            if frames::arg_entries(t, i, end) == Ok::<Seq<(Seq<char>, JsonView)>, ErrorView>(
                entries,
            ) {
                let first = entries[0];
                let more = frames::arg_entries(t, i + 2, end)->Ok_0;
                assert(entries == seq![(t[i].text, frames::arg_value(t[i + 1])->Ok_0)] + more);
                assert(more =~= rest) by {
                    assert forall|k: int| 0 <= k < rest.len() implies more[k] == rest[k] by {
                        assert(entries[k + 1] == more[k]);
                    }
                }
                assert forall|k: int|
                    #![trigger entries[k]]
                    0 <= k < entries.len() implies is_name(t[i + 2 * k], entries[k].0) && is_value(
                    t[i + 2 * k + 1],
                    entries[k].1,
                ) by {
                    if k > 0 {
                        assert(rest[k - 1] == entries[k]);
                    }
                }
            } else if end == i + 2 * entries.len() {
                if forall|k: int|
                    #![trigger entries[k]]
                    0 <= k < entries.len() ==> is_name(t[i + 2 * k], entries[k].0) && is_value(
                        t[i + 2 * k + 1],
                        entries[k].1,
                    ) {
                    assert forall|k: int|
                        #![trigger rest[k]]
                        0 <= k < rest.len() implies is_name(t[i + 2 + 2 * k], rest[k].0)
                        && is_value(t[i + 2 + 2 * k + 1], rest[k].1) by {
                        assert(entries[k + 1] == rest[k]);
                    }
                    assert(is_name(t[i + 2 * 0], entries[0].0));
                }
            }
        } else {
            if let Ok(more) = frames::arg_entries(t, i, end) {
                assert(more.len() > 0);
            }
        }
    } else {
        if frames::arg_entries(t, i, end) == Ok::<Seq<(Seq<char>, JsonView)>, ErrorView>(entries) {
            assert(entries.len() == 0);
        } else if entries.len() == 0 {
            assert(entries =~= Seq::empty());
        }
    }
}

proof fn lemma_batch(
    t: Seq<TokenView>,
    i: int,
    entries: Seq<(Seq<char>, JsonView)>,
    ttl_seconds: Option<u64>,
)
    requires
        0 < i,
    ensures
        ({
            let end = frames::batch_end(t);
            are_entries(t, i, entries, ttl_seconds) <==> i < end && (end - i) % 2 == 0
                && frames::arg_entries(t, i, end) == Ok::<Seq<(Seq<char>, JsonView)>, ErrorView>(
                entries,
            ) && frames::batch_ttl(t, end) == Ok::<Option<u64>, ErrorView>(ttl_seconds)
        }),
{
    let end = frames::batch_end(t);
    if i < end && (end - i) % 2 == 0 {
        lemma_entries(t, i, end, entries);
        if let Some(n) = ttl_seconds {
            lemma_number(t, t.len() - 1, n);
        }
    }
}

/// A frame is read as a command where its words are exactly those of the command, each in
/// its place; anything else is refused.
pub proof fn commands_are_read_word_by_word(t: Seq<TokenView>, command: CommandView)
    requires
        t.len() > 0,
    ensures
        frames::command_of(t) == Ok::<CommandView, ErrorView>(command) <==> are_command(t, command),
{
    lemma_keywords();
    match command {
        CommandView::Auth { api_key, adapter_instance } => {
            if let Some(id) = adapter_instance {
                lemma_id(t, 3, id);
            }
        },
        CommandView::Get { namespace, key } => {},
        CommandView::SetValue { namespace, key, value, ttl_seconds } => {
            if t.len() == 4 || t.len() == 6 {
                lemma_ttl(t, 4, ttl_seconds);
                lemma_value(t[3], value);
            }
        },
        CommandView::SetBatch { namespace, entries, ttl_seconds } => {
            lemma_batch(t, 2, entries, ttl_seconds);
        },
        CommandView::Delete { namespace, key_pattern } => {},
        CommandView::Move { source, destination } => {},
        CommandView::Provide { namespace_pattern, key_pattern, max_rate, timeout, miss_ttl } => {
            if let Some(n) = max_rate {
                lemma_number(t, 4, n as u64);
            }
        },
        CommandView::Store { namespace_pattern, key_pattern } => {},
        CommandView::Ping => {},
        CommandView::Stats => {},
    }
}

/// The words are an answer to a command.
pub open spec fn are_answer(t: Seq<TokenView>, command: CommandView, response: ResponseView) -> bool {
    match response {
        ResponseView::Okay => {
            &&& command is SetValue || command is SetBatch || command is Delete || command is Move
                || command is Provide || command is Store
            &&& t.len() == 1
            &&& is_keyword(t[0], "OK"@)
        },
        ResponseView::Value { value, ttl_seconds } => {
            &&& command matches CommandView::Get { namespace, key } && t[1].text == namespace
                && t[2].text == key
            &&& is_keyword(t[0], "SET"@)
            &&& is_value(t[3], value)
            &&& ends_with(t, 4, ttl_seconds)
        },
        ResponseView::Miss { retry_after_ms } => {
            &&& command is Get
            &&& t.len() == 2
            &&& is_keyword(t[0], "MISS"@)
            &&& is_number(t[1], retry_after_ms)
        },
        ResponseView::Unknown => command is Get && t.len() == 1 && is_keyword(t[0], "UNKNOWN"@),
        ResponseView::AuthSuccess { client_id, session_ttl_seconds } => {
            &&& command is Auth
            &&& t.len() == 4
            &&& is_keyword(t[0], "OK"@)
            &&& t[1].text == client_id
            &&& is_keyword(t[2], "TTL"@)
            &&& is_number(t[3], session_ttl_seconds)
        },
        ResponseView::AuthPending { retry_after_ms } => {
            &&& command is Auth
            &&& t.len() == 2
            &&& is_keyword(t[0], "MISS"@)
            &&& is_number(t[1], retry_after_ms)
        },
        ResponseView::AuthFailure { message } => {
            &&& command is Auth
            &&& t.len() == 2
            &&& is_keyword(t[0], "KO"@)
            &&& t[1].text == message
        },
        ResponseView::Pong => command is Ping && t.len() == 1 && is_keyword(t[0], "PONG"@),
        ResponseView::Stats(stats) => {
            &&& command is Stats
            &&& t.len() == 9
            &&& is_keyword(t[0], "STATS"@)
            &&& is_keyword(t[1], "REQUESTS"@)
            &&& is_number(t[2], stats.requests)
            &&& is_keyword(t[3], "HITS"@)
            &&& is_number(t[4], stats.hits)
            &&& is_keyword(t[5], "MISSES"@)
            &&& is_number(t[6], stats.misses)
            &&& is_keyword(t[7], "VALUES"@)
            &&& is_number(t[8], stats.values)
        },
        ResponseView::Error { message } => {
            &&& !(command is Auth)
            &&& t.len() == 2
            &&& is_keyword(t[0], "KO"@)
            &&& t[1].text == message
        },
    }
}

/// A frame is read as an answer where its words are exactly those of an answer to what
/// was asked, each in its place; anything else is refused.
pub proof fn answers_are_read_word_by_word(
    t: Seq<TokenView>,
    command: CommandView,
    response: ResponseView,
)
    requires
        t.len() > 0,
    ensures
        frames::response_of(command, t) == Ok::<ResponseView, ErrorView>(response) <==> are_answer(
            t,
            command,
            response,
        ),
{
    lemma_keywords();
    match response {
        ResponseView::Value { value, ttl_seconds } => {
            if t.len() == 4 || t.len() == 6 {
                lemma_ttl(t, 4, ttl_seconds);
                lemma_value(t[3], value);
            }
        },
        ResponseView::Stats(stats) => {
            lemma_number(t, 2, stats.requests);
            lemma_number(t, 4, stats.hits);
            lemma_number(t, 6, stats.misses);
            lemma_number(t, 8, stats.values);
        },
        ResponseView::Miss { retry_after_ms } => {
            lemma_number(t, 1, retry_after_ms);
        },
        ResponseView::AuthPending { retry_after_ms } => {
            lemma_number(t, 1, retry_after_ms);
        },
        ResponseView::AuthSuccess { session_ttl_seconds, .. } => {
            lemma_number(t, 3, session_ttl_seconds);
        },
        _ => {},
    }
}

/// The words are those of a callback.
pub open spec fn are_callback(t: Seq<TokenView>, command: ServerCommandView) -> bool {
    match command {
        ServerCommandView::Query { request_id, namespace, key } => {
            &&& t.len() == 4
            &&& is_keyword(t[0], "QUERY"@)
            &&& is_id(t[1], request_id)
            &&& is_name(t[2], namespace)
            &&& is_name(t[3], key)
        },
        ServerCommandView::PersistSet { request_id, namespace, key, value, ttl_seconds } => {
            &&& is_keyword(t[0], "PERSIST_SET"@)
            &&& is_id(t[1], request_id)
            &&& is_name(t[2], namespace)
            &&& is_name(t[3], key)
            &&& is_value(t[4], value)
            &&& ends_with(t, 5, ttl_seconds)
        },
        ServerCommandView::PersistSetBatch { request_id, namespace, entries, ttl_seconds } => {
            &&& is_keyword(t[0], "PERSIST_SET_BATCH"@)
            &&& is_id(t[1], request_id)
            &&& is_name(t[2], namespace)
            &&& are_entries(t, 3, entries, ttl_seconds)
        },
        ServerCommandView::PersistDelete { request_id, namespace, key_pattern } => {
            &&& is_keyword(t[0], "PERSIST_DELETE"@)
            &&& is_id(t[1], request_id)
            &&& is_name(t[2], namespace)
            &&& match key_pattern {
                Some(pattern) => t.len() == 4 && is_name(t[3], pattern),
                None => t.len() == 3,
            }
        },
        ServerCommandView::PersistMove { request_id, source, destination } => {
            &&& t.len() == 4
            &&& is_keyword(t[0], "PERSIST_MOVE"@)
            &&& is_id(t[1], request_id)
            &&& is_name(t[2], source)
            &&& is_name(t[3], destination)
        },
    }
}

/// A frame is read as a callback where its words are exactly those of the callback, each
/// in its place; anything else is refused.
pub proof fn callbacks_are_read_word_by_word(t: Seq<TokenView>, command: ServerCommandView)
    requires
        t.len() > 0,
    ensures
        line_callback::server_command_of(t) == Ok::<ServerCommandView, ErrorView>(command)
            <==> are_callback(t, command),
{
    lemma_keywords();
    lemma_id(t, 1, command.request_id());
    match command {
        ServerCommandView::PersistSet { value, ttl_seconds, .. } => {
            if t.len() == 5 || t.len() == 7 {
                lemma_ttl(t, 5, ttl_seconds);
                lemma_value(t[4], value);
            }
        },
        ServerCommandView::PersistSetBatch { entries, ttl_seconds, .. } => {
            lemma_batch(t, 3, entries, ttl_seconds);
        },
        _ => {},
    }
}

/// The words are the result of a callback.
pub open spec fn are_result(
    t: Seq<TokenView>,
    command: ServerCommandView,
    result: ServerResultView,
) -> bool {
    match result {
        ServerResultView::Query { request_id, value, error, ttl_seconds } => {
            &&& command matches ServerCommandView::Query { request_id: asked, namespace, key }
                && asked == request_id && match (value, error) {
                (Some(value), None) => is_keyword(t[2], "SET"@) && t[3].text == namespace
                    && t[4].text == key && is_value(t[5], value) && ends_with(t, 6, ttl_seconds),
                (None, Some(message)) => t.len() == 4 && is_keyword(t[2], "KO"@) && t[3].text
                    == message && ttl_seconds is None,
                (None, None) => t.len() == 3 && is_keyword(t[2], "MISS"@) && ttl_seconds is None,
                (Some(_), Some(_)) => false,
            }
            &&& is_keyword(t[0], "QUERY_RESULT"@)
            &&& is_id(t[1], request_id)
        },
        ServerResultView::Operation { request_id, error } => {
            &&& !(command is Query)
            &&& command.request_id() == request_id
            &&& is_keyword(t[0], "OPERATION"@)
            &&& is_id(t[1], request_id)
            &&& match error {
                Some(message) => t.len() == 4 && is_keyword(t[2], "KO"@) && t[3].text == message,
                None => t.len() == 3 && is_keyword(t[2], "OK"@),
            }
        },
    }
}

/// A frame is read as the result of a callback where its words are exactly those of a
/// result of what was asked, with its identifier; anything else is refused.
pub proof fn results_are_read_word_by_word(
    t: Seq<TokenView>,
    command: ServerCommandView,
    result: ServerResultView,
)
    requires
        t.len() > 0,
    ensures
        line_callback::server_result_of(command, t) == Ok::<ServerResultView, ErrorView>(result)
            <==> are_result(t, command, result),
{
    lemma_keywords();
    lemma_id(t, 1, command.request_id());
    match result {
        ServerResultView::Query { request_id, value, error, ttl_seconds } => {
            lemma_id(t, 1, request_id);
            if t.len() == 6 || t.len() == 8 {
                lemma_ttl(t, 6, ttl_seconds);
                if let Some(value) = value {
                    lemma_value(t[5], value);
                }
            }
        },
        ServerResultView::Operation { request_id, error } => {
            lemma_id(t, 1, request_id);
        },
    }
}

/// A result tells the request that it is for by the identifier behind its keyword.
pub proof fn results_tell_their_request(frame: Seq<char>, id: Uuid)
    ensures
        line_callback::callback_id(frame) == Ok::<Uuid, ErrorView>(id) <==> (wire::frame_words(
            frame,
        ) matches Ok(t) && (is_keyword(t[0], "OPERATION"@) || is_keyword(t[0], "QUERY_RESULT"@))
            && t.len() > 1 && is_id(t[1], id)),
{
    if let Ok(t) = wire::frame_words(frame) {
        lemma_id(t, 1, id);
    }
}

/// A frame is refused where it is empty, longer than a mebibyte, or more than a line.
pub proof fn frames_are_short_lines(frame: Seq<char>, i: int)
    ensures
        frame.len() == 0 ==> wire::frame_words(frame) is Err,
        vstd::utf8::encode_utf8(frame).len() > 1_048_576 ==> wire::frame_words(frame) is Err,
        0 <= i < frame.len() && (frame[i] == '\n' || frame[i] == '\r') ==> wire::frame_words(
            frame,
        ) is Err,
        wire::frame_words(frame) matches Ok(t) ==> t.len() > 0,
        wire::frame_words(frame) matches Err(error) ==> frames::decoded_command(frame) == Err::<
            CommandView,
            ErrorView,
        >(error) && line_callback::decoded_server_command(frame) == Err::<
            ServerCommandView,
            ErrorView,
        >(error),
{
}

/// A word in quotation marks ends with the next mark that no backslash stands before; one
/// that does not end is refused, and so is a backslash before anything but a mark, a
/// backslash, or the letters of a line feed, a carriage return and a tabulator.
pub proof fn quoted_words_end_at_their_mark(s: Seq<char>, i: int, end: int)
    requires
        0 <= i <= end <= s.len(),
        forall|k: int| i <= k < end ==> (#[trigger] s[k]) != '"' && s[k] != '\\',
    ensures
        end < s.len() && s[end] == '"' ==> wire::quoted_end(s, i, false) == Ok::<int, ErrorView>(
            end + 1,
        ),
        end == s.len() ==> wire::quoted_end(s, i, false) is Err,
        end + 1 < s.len() && s[end] == '\\' && (s[end + 1] == '"' || s[end + 1] == '\\' || s[end + 1]
            == 'n' || s[end + 1] == 'r' || s[end + 1] == 't') ==> wire::quoted_end(s, i, false)
            == wire::quoted_end(s, end + 2, false),
        end + 1 < s.len() && s[end] == '\\' && !(s[end + 1] == '"' || s[end + 1] == '\\' || s[end
            + 1] == 'n' || s[end + 1] == 'r' || s[end + 1] == 't') ==> wire::quoted_end(
            s,
            i,
            false,
        ) is Err,
    decreases end - i,
{
    if i < end {
        quoted_words_end_at_their_mark(s, i + 1, end);
    } else {
        reveal_with_fuel(wire::quoted_end, 3);
    }
}

/// A structured value ends where its brackets are closed, each by its own kind; marks and
/// brackets inside its strings do not count.
pub proof fn brackets_close_their_own_kind(s: Seq<char>, i: int, stack: Seq<char>)
    requires
        0 <= i < s.len(),
    ensures
        s[i] == ']' ==> wire::structured_end(s, i, seq!['['], false, false) == Ok::<int, ErrorView>(
            i + 1,
        ),
        s[i] == '}' ==> wire::structured_end(s, i, seq!['{'], false, false) == Ok::<int, ErrorView>(
            i + 1,
        ),
        s[i] == ']' ==> wire::structured_end(s, i, stack.push('{'), false, false) is Err,
        s[i] == '}' ==> wire::structured_end(s, i, stack.push('['), false, false) is Err,
        s[i] == ']' && stack.len() > 0 ==> wire::structured_end(
            s,
            i,
            stack.push('['),
            false,
            false,
        ) == wire::structured_end(s, i + 1, stack, false, false),
        s[i] == '}' && stack.len() > 0 ==> wire::structured_end(
            s,
            i,
            stack.push('{'),
            false,
            false,
        ) == wire::structured_end(s, i + 1, stack, false, false),
        s[i] == '[' || s[i] == '{' ==> wire::structured_end(s, i, stack, false, false)
            == wire::structured_end(s, i + 1, stack.push(s[i]), false, false),
        s[i] == '"' ==> wire::structured_end(s, i, stack, false, false) == wire::structured_end(
            s,
            i + 1,
            stack,
            true,
            false,
        ) && wire::structured_end(s, i, stack, true, false) == wire::structured_end(
            s,
            i + 1,
            stack,
            false,
            false,
        ),
        s[i] == '\\' ==> wire::structured_end(s, i, stack, true, false) == wire::structured_end(
            s,
            i + 1,
            stack,
            true,
            true,
        ),
        s[i] != '"' && s[i] != '\\' ==> wire::structured_end(s, i, stack, true, false)
            == wire::structured_end(s, i + 1, stack, true, false),
        wire::structured_end(s, i, stack, true, true) == wire::structured_end(
            s,
            i + 1,
            stack,
            true,
            false,
        ),
        wire::structured_end(s, s.len() as int, stack, false, false) is Err,
{
    assert(stack.push('[').drop_last() =~= stack);
    assert(stack.push('{').drop_last() =~= stack);
}

} // verus!
