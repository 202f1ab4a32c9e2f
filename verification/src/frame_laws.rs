//! How the frames of the protocol are written.

use crate::error::ErrorView;
use crate::json::{self, JsonView};
use crate::line_callback;
use crate::line_protocol as frames;
use crate::protocol::{
    CommandView, ResponseView, ServerCommandView, ServerResultView, Stats, Uuid,
};
use crate::text;
use crate::words::{self, WordView};
use vstd::prelude::*;

verus! {

/// A name in a frame: as it is where every character is safe, else as a JSON string.
pub open spec fn name(text: Seq<char>) -> Seq<char> {
    if text.len() > 0 && forall|i: int|
        0 <= i < text.len() ==> {
            let c = #[trigger] text[i];
            'a' <= c <= 'z' || 'A' <= c <= 'Z' || '0' <= c <= '9' || c == '_' || c == '.' || c
                == '/' || c == ':' || c == '*' || c == '~' || c == '$' || c == '-'
        } {
        text
    } else {
        json::quoted(text)
    }
}

/// A number in a frame, behind its keyword.
pub open spec fn number(keyword: Seq<char>, n: nat) -> Seq<char> {
    seq![' '] + keyword + seq![' '] + text::decimal(n)
}

/// A time to live at the end of a frame.
pub open spec fn expiry(ttl_seconds: Option<u64>) -> Seq<char> {
    match ttl_seconds {
        Some(n) => number("EX"@, n as nat),
        None => Seq::empty(),
    }
}

/// A word behind a blank.
pub open spec fn then_word(word: Seq<char>) -> Seq<char> {
    seq![' '] + word
}

proof fn lemma_name(text: Seq<char>)
    ensures
        words::word_text(WordView::Name(text)) == name(text),
{
    if words::safe(text) {
        assert forall|i: int| 0 <= i < text.len() implies {
            let c = #[trigger] text[i];
            'a' <= c <= 'z' || 'A' <= c <= 'Z' || '0' <= c <= '9' || c == '_' || c == '.' || c
                == '/' || c == ':' || c == '*' || c == '~' || c == '$' || c == '-'
        } by {
            assert(words::safe_char(text[i]));
        }
    }
}

proof fn lemma_push(list: Seq<WordView>, word: WordView)
    requires
        list.len() > 0,
    ensures
        words::line(list.push(word)) == words::line(list) + seq![' '] + words::word_text(word),
        words::line(list.push(word)) == words::line(list) + then_word(words::word_text(word)),
{
    assert(list.push(word).drop_last() =~= list);
    assert(words::line(list) + seq![' '] + words::word_text(word) =~= words::line(list) + then_word(
        words::word_text(word),
    ));
}

proof fn lemma_start(keyword: Seq<char>)
    ensures
        words::line(frames::starting(keyword)) == keyword,
{
}

proof fn lemma_expiry(list: Seq<WordView>, ttl_seconds: Option<u64>)
    requires
        list.len() > 0,
    ensures
        words::line(frames::with_ttl(list, ttl_seconds)) == words::line(list) + expiry(ttl_seconds),
{
    match ttl_seconds {
        Some(n) => {
            let more = list.push(WordView::Keyword("EX"@));
            lemma_push(list, WordView::Keyword("EX"@));
            lemma_push(more, WordView::Number(n as nat));
            assert(words::line(list) + seq![' '] + "EX"@ + seq![' '] + text::decimal(n as nat)
                =~= words::line(list) + expiry(ttl_seconds));
        },
        None => {
            assert(words::line(list) + expiry(ttl_seconds) =~= words::line(list));
        },
    }
}

proof fn lemma_option(list: Seq<WordView>, keyword: Seq<char>, value: Option<nat>)
    requires
        list.len() > 0,
    ensures
        words::line(frames::with_option(list, keyword, value)) == words::line(list) + (match value {
            Some(n) => number(keyword, n),
            None => Seq::empty(),
        }),
        frames::with_option(list, keyword, value).len() > 0,
{
    match value {
        Some(n) => {
            let more = list.push(WordView::Keyword(keyword));
            lemma_push(list, WordView::Keyword(keyword));
            lemma_push(more, WordView::Number(n));
            assert(words::line(list) + seq![' '] + keyword + seq![' '] + text::decimal(n)
                =~= words::line(list) + number(keyword, n));
        },
        None => {
            assert(words::line(list) + Seq::<char>::empty() =~= words::line(list));
        },
    }
}

/// The entries of a batch: each key with its value. A key that could be taken for the
/// time to live is quoted.
pub open spec fn pairs(entries: Seq<(Seq<char>, JsonView)>) -> Seq<char>
    decreases entries.len(),
{
    if entries.len() == 0 {
        Seq::empty()
    } else {
        let (key, value) = entries.last();
        pairs(entries.drop_last()) + then_word(
            if key == "EX"@ {
                json::quoted(key)
            } else {
                name(key)
            },
        ) + then_word(json::json_text(value))
    }
}

proof fn lemma_pairs(list: Seq<WordView>, entries: Seq<(Seq<char>, JsonView)>)
    requires
        list.len() > 0,
    ensures
        words::line(frames::with_entries(list, entries)) == words::line(list) + pairs(entries),
        frames::with_entries(list, entries).len() > 0,
    decreases entries.len(),
{
    if entries.len() == 0 {
        assert(words::line(list) + pairs(entries) =~= words::line(list));
    } else {
        lemma_pairs(list, entries.drop_last());
        let before = frames::with_entries(list, entries.drop_last());
        let key = words::batch_key(entries.last().0);
        lemma_name(entries.last().0);
        lemma_push(before, key);
        lemma_push(before.push(key), WordView::Json(entries.last().1));
        assert(words::line(list) + pairs(entries.drop_last()) + then_word(words::word_text(key))
            + then_word(json::json_text(entries.last().1)) =~= words::line(list) + pairs(entries));
    }
}

/// A frame of a keyword and two names.
proof fn lemma_two_names(keyword: Seq<char>, a: Seq<char>, b: Seq<char>)
    ensures
        words::line(frames::starting(keyword).push(WordView::Name(a))) == keyword + then_word(
            name(a),
        ),
        words::line(frames::starting(keyword).push(WordView::Name(a)).push(WordView::Name(b)))
            == keyword + then_word(name(a)) + then_word(name(b)),
{
    lemma_name(a);
    lemma_name(b);
    lemma_start(keyword);
    lemma_push(frames::starting(keyword), WordView::Name(a));
    lemma_push(frames::starting(keyword).push(WordView::Name(a)), WordView::Name(b));
}

/// A command is written as its keyword and its arguments, in this order and with a blank
/// between them: namespaces before keys, values before the time to live, the source of a
/// move before its destination, options behind the patterns.
pub proof fn commands_are_written_in_order(
    api_key: Seq<char>,
    instance: Uuid,
    namespace: Seq<char>,
    key: Seq<char>,
    value: JsonView,
    ttl_seconds: Option<u64>,
    entries: Seq<(Seq<char>, JsonView)>,
    max_rate: Option<u32>,
    timeout: Option<u64>,
    miss_ttl: Option<u64>,
)
    ensures
        frames::encoded_command(CommandView::Auth { api_key, adapter_instance: None }) == Ok::<
            Seq<char>,
            ErrorView,
        >("AUTH"@ + then_word(name(api_key))),
        frames::encoded_command(CommandView::Auth { api_key, adapter_instance: Some(instance) })
            == Ok::<Seq<char>, ErrorView>(
            "AUTH"@ + then_word(name(api_key)) + then_word("ADAPTER"@) + then_word(
                words::uuid_text(instance),
            ),
        ),
        frames::encoded_command(CommandView::Get { namespace, key }) == Ok::<Seq<char>, ErrorView>(
            "GET"@ + then_word(name(namespace)) + then_word(name(key)),
        ),
        frames::encoded_command(CommandView::SetValue { namespace, key, value, ttl_seconds })
            == Ok::<Seq<char>, ErrorView>(
            "SET"@ + then_word(name(namespace)) + then_word(name(key)) + then_word(
                json::json_text(value),
            ) + expiry(ttl_seconds),
        ),
        entries.len() > 0 ==> frames::encoded_command(
            CommandView::SetBatch { namespace, entries, ttl_seconds },
        ) == Ok::<Seq<char>, ErrorView>(
            "SET_BATCH"@ + then_word(name(namespace)) + pairs(entries) + expiry(ttl_seconds),
        ),
        frames::encoded_command(CommandView::Delete { namespace, key_pattern: None }) == Ok::<
            Seq<char>,
            ErrorView,
        >("DELETE"@ + then_word(name(namespace))),
        frames::encoded_command(CommandView::Delete { namespace, key_pattern: Some(key) }) == Ok::<
            Seq<char>,
            ErrorView,
        >("DELETE"@ + then_word(name(namespace)) + then_word(name(key))),
        frames::encoded_command(CommandView::Move { source: namespace, destination: key }) == Ok::<
            Seq<char>,
            ErrorView,
        >("MOVE"@ + then_word(name(namespace)) + then_word(name(key))),
        frames::encoded_command(
            CommandView::Provide {
                namespace_pattern: namespace,
                key_pattern: key,
                max_rate,
                timeout,
                miss_ttl,
            },
        ) == Ok::<Seq<char>, ErrorView>(
            "PROVIDE"@ + then_word(name(namespace)) + then_word(name(key)) + (match max_rate {
                Some(n) => number("MAX_RATE"@, n as nat),
                None => Seq::empty(),
            }) + (match timeout {
                Some(n) => number("TIMEOUT"@, n as nat),
                None => Seq::empty(),
            }) + (match miss_ttl {
                Some(n) => number("MISS_TTL"@, n as nat),
                None => Seq::empty(),
            }),
        ),
        frames::encoded_command(
            CommandView::Store { namespace_pattern: namespace, key_pattern: key },
        ) == Ok::<Seq<char>, ErrorView>(
            "STORE"@ + then_word(name(namespace)) + then_word(name(key)),
        ),
        frames::encoded_command(CommandView::Ping) == Ok::<Seq<char>, ErrorView>("PING"@),
        frames::encoded_command(CommandView::Stats) == Ok::<Seq<char>, ErrorView>("STATS"@),
{
    lemma_two_names("AUTH"@, api_key, api_key);
    let auth = frames::starting("AUTH"@).push(WordView::Name(api_key));
    lemma_push(auth, WordView::Keyword("ADAPTER"@));
    lemma_push(auth.push(WordView::Keyword("ADAPTER"@)), WordView::Id(instance));
    lemma_two_names("GET"@, namespace, key);
    lemma_two_names("SET"@, namespace, key);
    let set = frames::starting("SET"@).push(WordView::Name(namespace)).push(WordView::Name(key));
    lemma_push(set, WordView::Json(value));
    lemma_expiry(set.push(WordView::Json(value)), ttl_seconds);
    lemma_two_names("SET_BATCH"@, namespace, key);
    let batch = frames::starting("SET_BATCH"@).push(WordView::Name(namespace));
    lemma_pairs(batch, entries);
    lemma_expiry(frames::with_entries(batch, entries), ttl_seconds);
    lemma_two_names("DELETE"@, namespace, key);
    lemma_two_names("MOVE"@, namespace, key);
    lemma_two_names("STORE"@, namespace, key);
    lemma_two_names("PROVIDE"@, namespace, key);
    let provide = frames::starting("PROVIDE"@).push(WordView::Name(namespace)).push(
        WordView::Name(key),
    );
    let rate = match max_rate {
        Some(n) => Some(n as nat),
        None => None,
    };
    lemma_option(provide, "MAX_RATE"@, rate);
    let rated = frames::with_option(provide, "MAX_RATE"@, rate);
    lemma_option(rated, "TIMEOUT"@, frames::optional_nat(timeout));
    let timed = frames::with_option(rated, "TIMEOUT"@, frames::optional_nat(timeout));
    lemma_option(timed, "MISS_TTL"@, frames::optional_nat(miss_ttl));
    lemma_start("PING"@);
    lemma_start("STATS"@);
}

/// An answer is written as its keyword and what it tells: a value with the route that was
/// asked for, so that it can be told apart, and the time it has left.
pub proof fn answers_are_written_in_order(
    command: CommandView,
    namespace: Seq<char>,
    key: Seq<char>,
    value: JsonView,
    ttl_seconds: Option<u64>,
    message: Seq<char>,
    n: u64,
    stats: Stats,
)
    ensures
        frames::encoded_response(
            CommandView::Get { namespace, key },
            ResponseView::Value { value, ttl_seconds },
        ) == Ok::<Seq<char>, ErrorView>(
            "SET"@ + then_word(name(namespace)) + then_word(name(key)) + then_word(
                json::json_text(value),
            ) + expiry(ttl_seconds),
        ),
        frames::encoded_response(
            CommandView::Get { namespace, key },
            ResponseView::Miss { retry_after_ms: n },
        ) == Ok::<Seq<char>, ErrorView>("MISS"@ + then_word(text::decimal(n as nat))),
        frames::encoded_response(CommandView::Get { namespace, key }, ResponseView::Unknown) == Ok::<
            Seq<char>,
            ErrorView,
        >("UNKNOWN"@),
        command is Auth ==> frames::encoded_response(
            command,
            ResponseView::AuthSuccess { client_id: message, session_ttl_seconds: n },
        ) == Ok::<Seq<char>, ErrorView>(
            "OK"@ + then_word(name(message)) + number("TTL"@, n as nat),
        ),
        command is Auth ==> frames::encoded_response(
            command,
            ResponseView::AuthPending { retry_after_ms: n },
        ) == Ok::<Seq<char>, ErrorView>("MISS"@ + then_word(text::decimal(n as nat))),
        command is Auth ==> frames::encoded_response(
            command,
            ResponseView::AuthFailure { message },
        ) == Ok::<Seq<char>, ErrorView>("KO"@ + then_word(name(message))),
        !(command is Auth) ==> frames::encoded_response(command, ResponseView::Error { message })
            == Ok::<Seq<char>, ErrorView>("KO"@ + then_word(name(message))),
        command is SetValue || command is SetBatch || command is Delete || command is Move
            || command is Provide || command is Store ==> frames::encoded_response(
            command,
            ResponseView::Okay,
        ) == Ok::<Seq<char>, ErrorView>("OK"@),
        frames::encoded_response(CommandView::Ping, ResponseView::Pong) == Ok::<
            Seq<char>,
            ErrorView,
        >("PONG"@),
        frames::encoded_response(CommandView::Stats, ResponseView::Stats(stats)) == Ok::<
            Seq<char>,
            ErrorView,
        >(
            "STATS"@ + number("REQUESTS"@, stats.requests as nat) + number(
                "HITS"@,
                stats.hits as nat,
            ) + number("MISSES"@, stats.misses as nat) + number("VALUES"@, stats.values as nat),
        ),
{
    lemma_two_names("SET"@, namespace, key);
    let set = frames::starting("SET"@).push(WordView::Name(namespace)).push(WordView::Name(key));
    lemma_push(set, WordView::Json(value));
    lemma_expiry(set.push(WordView::Json(value)), ttl_seconds);
    lemma_push(frames::starting("MISS"@), WordView::Number(n as nat));
    lemma_start("MISS"@);
    lemma_start("UNKNOWN"@);
    lemma_start("OK"@);
    lemma_start("PONG"@);
    lemma_two_names("KO"@, message, message);
    lemma_two_names("OK"@, message, message);
    let success = frames::starting("OK"@).push(WordView::Name(message));
    lemma_option(success, "TTL"@, Some(n as nat));
    let start = frames::starting("STATS"@);
    lemma_start("STATS"@);
    lemma_option(start, "REQUESTS"@, Some(stats.requests as nat));
    let one = frames::with_option(start, "REQUESTS"@, Some(stats.requests as nat));
    lemma_option(one, "HITS"@, Some(stats.hits as nat));
    let two = frames::with_option(one, "HITS"@, Some(stats.hits as nat));
    lemma_option(two, "MISSES"@, Some(stats.misses as nat));
    let three = frames::with_option(two, "MISSES"@, Some(stats.misses as nat));
    lemma_option(three, "VALUES"@, Some(stats.values as nat));
}

proof fn lemma_callback(keyword: Seq<char>, id: Uuid, a: Seq<char>, b: Seq<char>)
    ensures
        words::line(line_callback::callback(keyword, id)) == keyword + then_word(
            words::uuid_text(id),
        ),
        words::line(line_callback::callback(keyword, id).push(WordView::Name(a))) == keyword
            + then_word(words::uuid_text(id)) + then_word(name(a)),
        words::line(
            line_callback::callback(keyword, id).push(WordView::Name(a)).push(WordView::Name(b)),
        ) == keyword + then_word(words::uuid_text(id)) + then_word(name(a)) + then_word(name(b)),
{
    lemma_name(a);
    lemma_name(b);
    lemma_start(keyword);
    lemma_push(frames::starting(keyword), WordView::Id(id));
    lemma_push(line_callback::callback(keyword, id), WordView::Name(a));
    lemma_push(line_callback::callback(keyword, id).push(WordView::Name(a)), WordView::Name(b));
}

/// A request to an adapter is written as its keyword, its identifier and its arguments, in
/// the order of the commands.
pub proof fn callbacks_are_written_in_order(
    id: Uuid,
    namespace: Seq<char>,
    key: Seq<char>,
    value: JsonView,
    ttl_seconds: Option<u64>,
    entries: Seq<(Seq<char>, JsonView)>,
)
    ensures
        ({
            let request_id = id;
            let tagged = |keyword: Seq<char>| keyword + then_word(words::uuid_text(id));
            &&& line_callback::encoded_server_command(
                ServerCommandView::Query { request_id, namespace, key },
            ) == tagged("QUERY"@) + then_word(name(namespace)) + then_word(name(key))
            &&& line_callback::encoded_server_command(
                ServerCommandView::PersistSet { request_id, namespace, key, value, ttl_seconds },
            ) == tagged("PERSIST_SET"@) + then_word(name(namespace)) + then_word(name(key))
                + then_word(json::json_text(value)) + expiry(ttl_seconds)
            &&& line_callback::encoded_server_command(
                ServerCommandView::PersistSetBatch { request_id, namespace, entries, ttl_seconds },
            ) == tagged("PERSIST_SET_BATCH"@) + then_word(name(namespace)) + pairs(entries) + expiry(
                ttl_seconds,
            )
            &&& line_callback::encoded_server_command(
                ServerCommandView::PersistDelete { request_id, namespace, key_pattern: Some(key) },
            ) == tagged("PERSIST_DELETE"@) + then_word(name(namespace)) + then_word(name(key))
            &&& line_callback::encoded_server_command(
                ServerCommandView::PersistDelete { request_id, namespace, key_pattern: None },
            ) == tagged("PERSIST_DELETE"@) + then_word(name(namespace))
            &&& line_callback::encoded_server_command(
                ServerCommandView::PersistMove { request_id, source: namespace, destination: key },
            ) == tagged("PERSIST_MOVE"@) + then_word(name(namespace)) + then_word(name(key))
        }),
{
    lemma_callback("QUERY"@, id, namespace, key);
    lemma_callback("PERSIST_SET"@, id, namespace, key);
    lemma_callback("PERSIST_SET_BATCH"@, id, namespace, key);
    lemma_callback("PERSIST_DELETE"@, id, namespace, key);
    lemma_callback("PERSIST_MOVE"@, id, namespace, key);
    let set = line_callback::callback("PERSIST_SET"@, id).push(WordView::Name(namespace)).push(
        WordView::Name(key),
    );
    lemma_push(set, WordView::Json(value));
    lemma_expiry(set.push(WordView::Json(value)), ttl_seconds);
    let batch = line_callback::callback("PERSIST_SET_BATCH"@, id).push(WordView::Name(namespace));
    lemma_pairs(batch, entries);
    lemma_expiry(frames::with_entries(batch, entries), ttl_seconds);
}

/// The answer of an adapter is written as its keyword and the identifier of the request,
/// with the value under its route, the miss or the error.
pub proof fn results_are_written_in_order(
    id: Uuid,
    command: ServerCommandView,
    namespace: Seq<char>,
    key: Seq<char>,
    value: JsonView,
    ttl_seconds: Option<u64>,
    message: Seq<char>,
)
    requires
        !(command is Query),
        command.request_id() == id,
    ensures
        ({
            let query = ServerCommandView::Query { request_id: id, namespace, key };
            let tagged = |keyword: Seq<char>| keyword + then_word(words::uuid_text(id));
            &&& line_callback::encoded_server_result(
                query,
                ServerResultView::Query {
                    request_id: id,
                    value: Some(value),
                    ttl_seconds,
                    error: None,
                },
            ) == Ok::<Seq<char>, ErrorView>(
                tagged("QUERY_RESULT"@) + then_word("SET"@) + then_word(name(namespace))
                    + then_word(name(key)) + then_word(json::json_text(value)) + expiry(
                    ttl_seconds,
                ),
            )
            &&& line_callback::encoded_server_result(
                query,
                ServerResultView::Query {
                    request_id: id,
                    value: None,
                    ttl_seconds: None,
                    error: None,
                },
            ) == Ok::<Seq<char>, ErrorView>(tagged("QUERY_RESULT"@) + then_word("MISS"@))
            &&& line_callback::encoded_server_result(
                query,
                ServerResultView::Query {
                    request_id: id,
                    value: None,
                    ttl_seconds: None,
                    error: Some(message),
                },
            ) == Ok::<Seq<char>, ErrorView>(
                tagged("QUERY_RESULT"@) + then_word("KO"@) + then_word(name(message)),
            )
            &&& line_callback::encoded_server_result(
                command,
                ServerResultView::Operation { request_id: id, error: None },
            ) == Ok::<Seq<char>, ErrorView>(tagged("OPERATION"@) + then_word("OK"@))
            &&& line_callback::encoded_server_result(
                command,
                ServerResultView::Operation { request_id: id, error: Some(message) },
            ) == Ok::<Seq<char>, ErrorView>(
                tagged("OPERATION"@) + then_word("KO"@) + then_word(name(message)),
            )
        }),
{
    lemma_callback("QUERY_RESULT"@, id, message, message);
    lemma_callback("OPERATION"@, id, message, message);
    lemma_name(message);
    lemma_name(namespace);
    lemma_name(key);
    let result = line_callback::callback("QUERY_RESULT"@, id);
    let operation = line_callback::callback("OPERATION"@, id);
    lemma_push(result, WordView::Keyword("MISS"@));
    lemma_push(result, WordView::Keyword("KO"@));
    lemma_push(result.push(WordView::Keyword("KO"@)), WordView::Name(message));
    lemma_push(operation, WordView::Keyword("OK"@));
    lemma_push(operation, WordView::Keyword("KO"@));
    lemma_push(operation.push(WordView::Keyword("KO"@)), WordView::Name(message));
    let set = result.push(WordView::Keyword("SET"@));
    lemma_push(result, WordView::Keyword("SET"@));
    lemma_push(set, WordView::Name(namespace));
    let named = set.push(WordView::Name(namespace));
    lemma_push(named, WordView::Name(key));
    let routed = named.push(WordView::Name(key));
    lemma_push(routed, WordView::Json(value));
    lemma_expiry(routed.push(WordView::Json(value)), ttl_seconds);
}

/// An answer is written for a command that it can answer, and for no other one.
pub proof fn answers_are_written_for_their_command(command: CommandView, response: ResponseView)
    ensures
        frames::encoded_response(command, response) is Ok <==> match response {
            ResponseView::Okay => command is SetValue || command is SetBatch || command is Delete
                || command is Move || command is Provide || command is Store,
            ResponseView::Value { .. } => command is Get,
            ResponseView::Miss { .. } => command is Get,
            ResponseView::Unknown => command is Get,
            ResponseView::AuthSuccess { .. } => command is Auth,
            ResponseView::AuthPending { .. } => command is Auth,
            ResponseView::AuthFailure { .. } => command is Auth,
            ResponseView::Pong => command is Ping,
            ResponseView::Stats(_) => command is Stats,
            ResponseView::Error { .. } => !(command is Auth),
        },
{
}

/// A result is written for the request that it has the identifier and the kind of, and
/// for no other one; a batch without entries is not written.
pub proof fn results_are_written_for_their_request(
    command: ServerCommandView,
    result: ServerResultView,
    namespace: Seq<char>,
    ttl_seconds: Option<u64>,
)
    ensures
        line_callback::encoded_server_result(command, result) is Ok <==> match result {
            ServerResultView::Query { request_id, .. } => command is Query && command.request_id()
                == request_id,
            ServerResultView::Operation { request_id, .. } => !(command is Query)
                && command.request_id() == request_id,
        },
        frames::encoded_command(
            CommandView::SetBatch { namespace, entries: Seq::empty(), ttl_seconds },
        ) is Err,
{
}

} // verus!
