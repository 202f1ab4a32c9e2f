//! The frames of server-initiated requests and of the adapters' answers.

use crate::error::{protocol, Error, ErrorView};
use crate::json::JsonView;
use crate::line_protocol::{
    self as frames, add_entries, add_ttl, decode_batch_ttl, decode_optional_pattern, entries,
    find_batch_end, is_unquoted, key, keyword, namespace, ttl, uuid, value,
};
use crate::protocol::{
    ServerCommand, ServerCommandView, ServerResult, ServerResultView, Uuid,
};
use crate::text;
use crate::wire::{self, Token, TokenView};
use crate::words::{self, Line, WordView};
use vstd::prelude::*;

verus! {

/// A line of a reserved word and an identifier.
pub open spec fn callback(name: Seq<char>, id: Uuid) -> Seq<WordView> {
    frames::starting(name).push(WordView::Id(id))
}

/// The words of a server-initiated request.
pub open spec fn server_command_words(command: ServerCommandView) -> Seq<WordView> {
    match command {
        ServerCommandView::Query { request_id, namespace, key } => callback(
            "QUERY"@,
            request_id,
        ).push(WordView::Name(namespace)).push(WordView::Name(key)),
        ServerCommandView::PersistSet { request_id, namespace, key, value, ttl_seconds } =>
        frames::with_ttl(
            callback("PERSIST_SET"@, request_id).push(WordView::Name(namespace)).push(
                WordView::Name(key),
            ).push(WordView::Json(value)),
            ttl_seconds,
        ),
        ServerCommandView::PersistSetBatch { request_id, namespace, entries, ttl_seconds } =>
        frames::with_ttl(
            frames::with_entries(
                callback("PERSIST_SET_BATCH"@, request_id).push(WordView::Name(namespace)),
                entries,
            ),
            ttl_seconds,
        ),
        ServerCommandView::PersistDelete { request_id, namespace, key_pattern } => {
            let words = callback("PERSIST_DELETE"@, request_id).push(WordView::Name(namespace));
            match key_pattern {
                Some(pattern) => words.push(WordView::Name(pattern)),
                None => words,
            }
        },
        ServerCommandView::PersistMove { request_id, source, destination } => callback(
            "PERSIST_MOVE"@,
            request_id,
        ).push(WordView::Name(source)).push(WordView::Name(destination)),
    }
}

/// The frame of a server-initiated request.
pub open spec fn encoded_server_command(command: ServerCommandView) -> Seq<char> {
    words::line(server_command_words(command))
}

/// Writes a server-initiated request as a frame.
pub fn encode_server_command(command: &ServerCommand) -> (r: Result<String, Error>)
    ensures
        crate::error::outcome(r) == Ok::<Seq<char>, ErrorView>(encoded_server_command(command@)),
{
    match command {
        ServerCommand::Query { request_id, namespace, key } => {
            let mut line = Line::start("QUERY");
            line.id(*request_id);
            line.name(namespace.as_str());
            line.name(key.as_str());
            Ok(line.text)
        },
        ServerCommand::PersistSet { request_id, namespace, key, value, ttl_seconds } => {
            let mut line = Line::start("PERSIST_SET");
            line.id(*request_id);
            line.name(namespace.as_str());
            line.name(key.as_str());
            line.json(value);
            add_ttl(&mut line, *ttl_seconds);
            Ok(line.text)
        },
        ServerCommand::PersistSetBatch { request_id, namespace, entries, ttl_seconds } => {
            let mut line = Line::start("PERSIST_SET_BATCH");
            line.id(*request_id);
            line.name(namespace.as_str());
            add_entries(&mut line, entries);
            add_ttl(&mut line, *ttl_seconds);
            Ok(line.text)
        },
        ServerCommand::PersistDelete { request_id, namespace, key_pattern } => {
            let mut line = Line::start("PERSIST_DELETE");
            line.id(*request_id);
            line.name(namespace.as_str());
            if let Some(pattern) = key_pattern {
                line.name(pattern.as_str());
            }
            Ok(line.text)
        },
        ServerCommand::PersistMove { request_id, source, destination } => {
            let mut line = Line::start("PERSIST_MOVE");
            line.id(*request_id);
            line.name(source.as_str());
            line.name(destination.as_str());
            Ok(line.text)
        },
    }
}

/// The words of a QUERY request.
pub open spec fn query_of(t: Seq<TokenView>, request_id: Uuid) -> Result<
    ServerCommandView,
    ErrorView,
> {
    if t.len() != 4 {
        frames::wrong_count()
    } else {
        match frames::arg_name(t, 2, "namespace"@) {
            Err(error) => Err(error),
            Ok(namespace) => match frames::arg_name(t, 3, "key"@) {
                Err(error) => Err(error),
                Ok(key) => Ok(ServerCommandView::Query { request_id, namespace, key }),
            },
        }
    }
}

/// The words of a PERSIST_SET request.
pub open spec fn persist_set_of(t: Seq<TokenView>, request_id: Uuid) -> Result<
    ServerCommandView,
    ErrorView,
> {
    if !(t.len() == 5 || t.len() == 7) {
        frames::refused("invalid PERSIST_SET"@)
    } else {
        match frames::arg_name(t, 2, "namespace"@) {
            Err(error) => Err(error),
            Ok(namespace) => match frames::arg_name(t, 3, "key"@) {
                Err(error) => Err(error),
                Ok(key) => match frames::arg_value(t[4]) {
                    Err(error) => Err(error),
                    Ok(value) => match frames::arg_ttl(t, 5) {
                        Err(error) => Err(error),
                        Ok(ttl_seconds) => Ok(
                            ServerCommandView::PersistSet {
                                request_id,
                                namespace,
                                key,
                                value,
                                ttl_seconds,
                            },
                        ),
                    },
                },
            },
        }
    }
}

/// The words of a PERSIST_SET_BATCH request.
pub open spec fn persist_batch_of(t: Seq<TokenView>, request_id: Uuid) -> Result<
    ServerCommandView,
    ErrorView,
> {
    let end = frames::batch_end(t);
    if t.len() < 5 {
        frames::refused("invalid PERSIST_SET_BATCH"@)
    } else if end <= 3 || (end - 3) % 2 != 0 {
        frames::refused("invalid batch entries"@)
    } else {
        match frames::arg_entries(t, 3, end) {
            Err(error) => Err(error),
            Ok(entries) => match frames::arg_name(t, 2, "namespace"@) {
                Err(error) => Err(error),
                Ok(namespace) => match frames::batch_ttl(t, end) {
                    Err(error) => Err(error),
                    Ok(ttl_seconds) => Ok(
                        ServerCommandView::PersistSetBatch {
                            request_id,
                            namespace,
                            entries,
                            ttl_seconds,
                        },
                    ),
                },
            },
        }
    }
}

/// The words of a PERSIST_DELETE request.
pub open spec fn persist_delete_of(t: Seq<TokenView>, request_id: Uuid) -> Result<
    ServerCommandView,
    ErrorView,
> {
    if !(t.len() == 3 || t.len() == 4) {
        frames::refused("invalid PERSIST_DELETE"@)
    } else {
        match frames::arg_name(t, 2, "namespace"@) {
            Err(error) => Err(error),
            Ok(namespace) => match frames::optional_pattern(t, 3) {
                Err(error) => Err(error),
                Ok(key_pattern) => Ok(
                    ServerCommandView::PersistDelete { request_id, namespace, key_pattern },
                ),
            },
        }
    }
}

/// The words of a PERSIST_MOVE request.
pub open spec fn persist_move_of(t: Seq<TokenView>, request_id: Uuid) -> Result<
    ServerCommandView,
    ErrorView,
> {
    if t.len() != 4 {
        frames::wrong_count()
    } else {
        match frames::arg_name(t, 2, "namespace"@) {
            Err(error) => Err(error),
            Ok(source) => match frames::arg_name(t, 3, "namespace"@) {
                Err(error) => Err(error),
                Ok(destination) => Ok(
                    ServerCommandView::PersistMove { request_id, source, destination },
                ),
            },
        }
    }
}

/// The server-initiated request that the words of a frame write.
pub open spec fn server_command_of(t: Seq<TokenView>) -> Result<ServerCommandView, ErrorView> {
    if t[0].quoted {
        frames::refused("callback keyword must be unquoted"@)
    } else {
        match frames::arg_uuid(t, 1) {
            Err(error) => Err(error),
            Ok(id) => {
                let name = t[0].text;
                if name == "QUERY"@ {
                    query_of(t, id)
                } else if name == "PERSIST_SET"@ {
                    persist_set_of(t, id)
                } else if name == "PERSIST_SET_BATCH"@ {
                    persist_batch_of(t, id)
                } else if name == "PERSIST_DELETE"@ {
                    persist_delete_of(t, id)
                } else if name == "PERSIST_MOVE"@ {
                    persist_move_of(t, id)
                } else {
                    frames::refused("unknown callback command"@)
                }
            },
        }
    }
}

/// The server-initiated request that a frame writes.
pub open spec fn decoded_server_command(frame: Seq<char>) -> Result<ServerCommandView, ErrorView> {
    match wire::frame_words(frame) {
        Err(error) => Err(error),
        Ok(t) => server_command_of(t),
    }
}

fn decode_query(t: &Vec<Token>, request_id: Uuid) -> (r: Result<ServerCommand, Error>)
    ensures
        crate::error::outcome(r) == query_of(frames::token_views(t@), request_id),
{
    if t.len() != 4 {
        return Err(protocol("unexpected number of arguments"));
    }
    match namespace(t, 2) {
        Err(error) => Err(error),
        Ok(namespace) => match key(t, 3) {
            Err(error) => Err(error),
            Ok(key) => Ok(ServerCommand::Query { request_id, namespace, key }),
        },
    }
}

fn decode_persist_set(t: &Vec<Token>, request_id: Uuid) -> (r: Result<ServerCommand, Error>)
    ensures
        crate::error::outcome(r) == persist_set_of(frames::token_views(t@), request_id),
        t.len() == 5 || t.len() == 7 ==> frames::faithful_value(frames::token_views(t@)[4]),
{
    if !(t.len() == 5 || t.len() == 7) {
        return Err(protocol("invalid PERSIST_SET"));
    }
    let parsed = value(&t[4]);
    match namespace(t, 2) {
        Err(error) => Err(error),
        Ok(namespace) => match key(t, 3) {
            Err(error) => Err(error),
            Ok(key) => match parsed {
                Err(error) => Err(error),
                Ok(value) => match ttl(t, 5) {
                    Err(error) => Err(error),
                    Ok(ttl_seconds) => Ok(
                        ServerCommand::PersistSet {
                            request_id,
                            namespace,
                            key,
                            value,
                            ttl_seconds,
                        },
                    ),
                },
            },
        },
    }
}

fn decode_persist_batch(t: &Vec<Token>, request_id: Uuid) -> (r: Result<ServerCommand, Error>)
    ensures
        crate::error::outcome(r) == persist_batch_of(frames::token_views(t@), request_id),
        t.len() >= 5 && frames::batch_end(frames::token_views(t@)) > 3 && (frames::batch_end(
            frames::token_views(t@),
        ) - 3) % 2 == 0 ==> frames::faithful_values(
            frames::token_views(t@),
            3,
            frames::batch_end(frames::token_views(t@)),
        ),
{
    if t.len() < 5 {
        return Err(protocol("invalid PERSIST_SET_BATCH"));
    }
    let end: usize = find_batch_end(t);
    if end <= 3 || (end - 3) % 2 != 0 {
        return Err(protocol("invalid batch entries"));
    }
    match entries(t, 3, end) {
        Err(error) => Err(error),
        Ok(entries) => match namespace(t, 2) {
            Err(error) => Err(error),
            Ok(namespace) => match decode_batch_ttl(t, end) {
                Err(error) => Err(error),
                Ok(ttl_seconds) => Ok(
                    ServerCommand::PersistSetBatch { request_id, namespace, entries, ttl_seconds },
                ),
            },
        },
    }
}

fn decode_persist_delete(t: &Vec<Token>, request_id: Uuid) -> (r: Result<ServerCommand, Error>)
    ensures
        crate::error::outcome(r) == persist_delete_of(frames::token_views(t@), request_id),
{
    if !(t.len() == 3 || t.len() == 4) {
        return Err(protocol("invalid PERSIST_DELETE"));
    }
    match namespace(t, 2) {
        Err(error) => Err(error),
        Ok(namespace) => match decode_optional_pattern(t, 3) {
            Err(error) => Err(error),
            Ok(key_pattern) => Ok(
                ServerCommand::PersistDelete { request_id, namespace, key_pattern },
            ),
        },
    }
}

fn decode_persist_move(t: &Vec<Token>, request_id: Uuid) -> (r: Result<ServerCommand, Error>)
    ensures
        crate::error::outcome(r) == persist_move_of(frames::token_views(t@), request_id),
{
    if t.len() != 4 {
        return Err(protocol("unexpected number of arguments"));
    }
    match namespace(t, 2) {
        Err(error) => Err(error),
        Ok(source) => match namespace(t, 3) {
            Err(error) => Err(error),
            Ok(destination) => Ok(ServerCommand::PersistMove { request_id, source, destination }),
        },
    }
}

/// A server-initiated request that the wire gives back.
pub open spec fn wire_server_command(command: ServerCommandView) -> bool {
    match command {
        ServerCommandView::Query { namespace, key, .. } => frames::wire_name(namespace)
            && frames::wire_name(key),
        ServerCommandView::PersistSet { namespace, key, value, .. } => frames::wire_name(namespace)
            && frames::wire_name(key) && words::writable(WordView::Json(value)),
        ServerCommandView::PersistSetBatch { namespace, entries, .. } => frames::wire_name(
            namespace,
        ) && frames::wire_entries(entries),
        ServerCommandView::PersistDelete { namespace, key_pattern, .. } => frames::wire_name(
            namespace,
        ) && (key_pattern matches Some(pattern) ==> frames::wire_name(pattern)),
        ServerCommandView::PersistMove { source, destination, .. } => frames::wire_name(source)
            && frames::wire_name(destination),
    }
}

proof fn lemma_literals()
    ensures
        words::bare("QUERY"@),
        words::bare("PERSIST_SET"@),
        words::bare("PERSIST_SET_BATCH"@),
        words::bare("PERSIST_DELETE"@),
        words::bare("PERSIST_MOVE"@),
        words::bare("EX"@),
        words::bare("QUERY_RESULT"@),
        words::bare("OPERATION"@),
        words::bare("OK"@),
        words::bare("KO"@),
        words::bare("SET"@),
        words::bare("MISS"@),
        "QUERY"@ != "PERSIST_SET"@,
        "QUERY"@ != "PERSIST_SET_BATCH"@,
        "QUERY"@ != "PERSIST_DELETE"@,
        "QUERY"@ != "PERSIST_MOVE"@,
        "PERSIST_SET"@ != "PERSIST_SET_BATCH"@,
        "PERSIST_SET"@ != "PERSIST_DELETE"@,
        "PERSIST_SET"@ != "PERSIST_MOVE"@,
        "PERSIST_SET_BATCH"@ != "PERSIST_DELETE"@,
        "PERSIST_SET_BATCH"@ != "PERSIST_MOVE"@,
        "PERSIST_DELETE"@ != "PERSIST_MOVE"@,
        "MISS"@ != "KO"@,
        "MISS"@ != "SET"@,
        "KO"@ != "SET"@,
        "OK"@ != "KO"@,
{
    reveal_strlit("QUERY");
    reveal_strlit("PERSIST_SET");
    reveal_strlit("PERSIST_SET_BATCH");
    reveal_strlit("PERSIST_DELETE");
    reveal_strlit("PERSIST_MOVE");
    reveal_strlit("EX");
    reveal_strlit("QUERY_RESULT");
    reveal_strlit("OPERATION");
    reveal_strlit("OK");
    reveal_strlit("KO");
    reveal_strlit("SET");
    reveal_strlit("MISS");
    assert("QUERY"@.len() == 5);
    assert("PERSIST_SET"@.len() == 11);
    assert("PERSIST_SET_BATCH"@.len() == 17);
    assert("PERSIST_DELETE"@.len() == 14);
    assert("PERSIST_MOVE"@.len() == 12);
    assert("MISS"@.len() == 4);
    assert("SET"@.len() == 3);
    assert("OK"@[0] == 'O');
    assert("KO"@[0] == 'K');
    assert("KO"@.len() == 2);
}

proof fn lemma_server_command_writable(command: ServerCommandView)
    requires
        wire_server_command(command),
    ensures
        server_command_words(command).len() > 1,
        server_command_words(command)[0] is Keyword,
        server_command_words(command)[1] == WordView::Id(command.request_id()),
        forall|k: int|
            0 <= k < server_command_words(command).len() ==> words::writable(
                #[trigger] server_command_words(command)[k],
            ),
{
    lemma_literals();
    let all = server_command_words(command);
    match command {
        ServerCommandView::PersistSetBatch { request_id, namespace, entries, ttl_seconds } => {
            let head = callback("PERSIST_SET_BATCH"@, request_id).push(WordView::Name(namespace));
            frames::lemma_with_entries(head, entries);
            assert(all[0] == head[0]);
            assert(all[1] == head[1]);
            assert forall|k: int| 0 <= k < all.len() implies words::writable(#[trigger] all[k]) by {
                if k < frames::with_entries(head, entries).len() {
                    frames::lemma_entry_writable(head, entries, k);
                    if k < head.len() {
                        assert(all[k] == head[k]);
                    }
                }
            }
        },
        _ => {},
    }
}

/// The facts on outside readers that decoding a request rests on.
spec fn faithful_server_command(t: Seq<TokenView>) -> bool {
    let name = t[0].text;
    &&& t.len() > 1 ==> frames::faithful_id(t[1])
    &&& frames::arg_uuid(t, 1) is Ok && name == "PERSIST_SET"@ && (t.len() == 5 || t.len() == 7)
        ==> frames::faithful_value(t[4])
    &&& frames::arg_uuid(t, 1) is Ok && name == "PERSIST_SET_BATCH"@ && t.len() >= 5
        && frames::batch_end(t) > 3 && (frames::batch_end(t) - 3) % 2 == 0
        ==> frames::faithful_values(t, 3, frames::batch_end(t))
}

proof fn lemma_persist_batch_of(
    request_id: Uuid,
    namespace: Seq<char>,
    entries: Seq<(Seq<char>, JsonView)>,
    ttl_seconds: Option<u64>,
)
    requires
        frames::wire_name(namespace),
        frames::wire_entries(entries),
        ({
            let t = words::word_tokens(
                server_command_words(
                    ServerCommandView::PersistSetBatch {
                        request_id,
                        namespace,
                        entries,
                        ttl_seconds,
                    },
                ),
            );
            t.len() >= 5 && frames::batch_end(t) > 3 && (frames::batch_end(t) - 3) % 2 == 0
                ==> frames::faithful_values(t, 3, frames::batch_end(t))
        }),
    ensures
        persist_batch_of(
            words::word_tokens(
                server_command_words(
                    ServerCommandView::PersistSetBatch {
                        request_id,
                        namespace,
                        entries,
                        ttl_seconds,
                    },
                ),
            ),
            request_id,
        ) == Ok::<ServerCommandView, ErrorView>(
            ServerCommandView::PersistSetBatch { request_id, namespace, entries, ttl_seconds },
        ),
{
    let all = server_command_words(
        ServerCommandView::PersistSetBatch { request_id, namespace, entries, ttl_seconds },
    );
    let t = words::word_tokens(all);
    let head = callback("PERSIST_SET_BATCH"@, request_id).push(WordView::Name(namespace));
    frames::lemma_with_entries(head, entries);
    let end: int = 3 + 2 * (entries.len() as int);
    let last = entries.len() - 1;
    let body = frames::with_entries(head, entries);
    assert(body[3 + 2 * last] == words::batch_key(entries[last].0));
    if let Some(n) = ttl_seconds {
        assert(t[end] == words::word_token(WordView::Keyword("EX"@)));
        frames::lemma_number(t, end + 1, n);
    } else {
        assert(t[end - 2] == words::word_token(words::batch_key(entries[last].0)));
    }
    assert(frames::batch_end(t) == end);
    assert(body[2] == head[2]);
    assert(t[2] == words::word_token(WordView::Name(namespace)));
    assert forall|j: int| 0 <= j < entries.len() implies t[3 + 2 * j] == words::word_token(
        words::batch_key((#[trigger] entries[j]).0),
    ) && t[3 + 2 * j + 1] == words::word_token(WordView::Json(entries[j].1)) by {
        assert(body[3 + 2 * j] == words::batch_key(entries[j].0));
    }
    frames::lemma_entries(t, 3, entries, 0);
    assert(entries.skip(0) =~= entries);
}

proof fn lemma_server_command_of(command: ServerCommandView)
    requires
        wire_server_command(command),
        faithful_server_command(words::word_tokens(server_command_words(command))),
    ensures
        server_command_of(words::word_tokens(server_command_words(command))) == Ok::<
            ServerCommandView,
            ErrorView,
        >(command),
{
    lemma_literals();
    lemma_server_command_writable(command);
    let all = server_command_words(command);
    let t = words::word_tokens(all);
    assert(t[0] == words::word_token(all[0]));
    assert(t[1] == words::word_token(all[1]));
    frames::lemma_id(t, 1, command.request_id());
    match command {
        ServerCommandView::Query { request_id, namespace, key } => {
            assert(t[2] == words::word_token(all[2]));
            assert(t[3] == words::word_token(all[3]));
        },
        ServerCommandView::PersistSet { request_id, namespace, key, value, ttl_seconds } => {
            assert(t[2] == words::word_token(all[2]));
            assert(t[3] == words::word_token(all[3]));
            frames::lemma_value(t[4], value);
            if let Some(n) = ttl_seconds {
                assert(t[5] == words::word_token(WordView::Keyword("EX"@)));
                frames::lemma_number(t, 6, n);
            }
        },
        ServerCommandView::PersistSetBatch { request_id, namespace, entries, ttl_seconds } => {
            let head = callback("PERSIST_SET_BATCH"@, request_id).push(WordView::Name(namespace));
            frames::lemma_with_entries(head, entries);
            assert(all[0] == head[0]);
            lemma_persist_batch_of(request_id, namespace, entries, ttl_seconds);
        },
        ServerCommandView::PersistDelete { request_id, namespace, key_pattern } => {
            assert(t[2] == words::word_token(all[2]));
            if key_pattern is Some {
                assert(t[3] == words::word_token(all[3]));
            }
        },
        ServerCommandView::PersistMove { request_id, source, destination } => {
            assert(t[2] == words::word_token(all[2]));
            assert(t[3] == words::word_token(all[3]));
        },
    }
}

/// Reads a server-initiated request from a frame. A request that the wire can
/// carry is read back from the frame that [`encode_server_command`] writes.
pub fn decode_server_command(frame: &str) -> (r: Result<ServerCommand, Error>)
    ensures
        crate::error::outcome(r) == decoded_server_command(frame@),
        forall|command: ServerCommandView|
            #![trigger encoded_server_command(command)]
            wire_server_command(command) && encoded_server_command(command) == frame@
                && wire::byte_length(frame@) <= wire::MAX_FRAME_BYTES ==> crate::error::outcome(r)
                == Ok::<ServerCommandView, ErrorView>(command),
{
    let scanned = wire::tokens(frame);
    proof {
        assert forall|command: ServerCommandView|
            #![trigger encoded_server_command(command)]
            wire_server_command(command) && encoded_server_command(command) == frame@
                && wire::byte_length(frame@) <= wire::MAX_FRAME_BYTES implies wire::frame_words(
            frame@,
        ) == Ok::<Seq<TokenView>, ErrorView>(
            words::word_tokens(server_command_words(command)),
        ) by {
            lemma_server_command_writable(command);
            words::scan_conditions(server_command_words(command));
            words::scan_after_write(server_command_words(command));
        }
    }
    let t = match scanned {
        Ok(t) => t,
        Err(error) => {
            return Err(error);
        },
    };
    let ghost views = frames::token_views(t@);
    let r = dispatch_server_command(&t);
    proof {
        assert forall|command: ServerCommandView|
            #![trigger encoded_server_command(command)]
            wire_server_command(command) && encoded_server_command(command) == frame@
                && wire::byte_length(frame@) <= wire::MAX_FRAME_BYTES implies server_command_of(
            views,
        ) == Ok::<ServerCommandView, ErrorView>(command) by {
            lemma_server_command_writable(command);
            assert(views[0] == words::word_token(server_command_words(command)[0]));
            lemma_server_command_of(command);
        }
    }
    r
}

fn dispatch_server_command(t: &Vec<Token>) -> (r: Result<ServerCommand, Error>)
    requires
        t.len() > 0,
    ensures
        crate::error::outcome(r) == server_command_of(frames::token_views(t@)),
        !frames::token_views(t@)[0].quoted ==> faithful_server_command(frames::token_views(t@)),
{
    proof {
        lemma_literals();
    }
    if t[0].quoted {
        return Err(protocol("callback keyword must be unquoted"));
    }
    let id: Uuid = match uuid(t, 1) {
        Ok(id) => id,
        Err(error) => {
            return Err(error);
        },
    };
    let name = t[0].text.as_str();
    if text::same(name, "QUERY") {
        decode_query(t, id)
    } else if text::same(name, "PERSIST_SET") {
        decode_persist_set(t, id)
    } else if text::same(name, "PERSIST_SET_BATCH") {
        decode_persist_batch(t, id)
    } else if text::same(name, "PERSIST_DELETE") {
        decode_persist_delete(t, id)
    } else if text::same(name, "PERSIST_MOVE") {
        decode_persist_move(t, id)
    } else {
        Err(protocol("unknown callback command"))
    }
}

/// The words of an adapter's answer to a query.
pub open spec fn query_result_words(
    namespace: Seq<char>,
    key: Seq<char>,
    request_id: Uuid,
    value: Option<JsonView>,
    error: Option<Seq<char>>,
    ttl_seconds: Option<u64>,
) -> Seq<WordView> {
    let words = callback("QUERY_RESULT"@, request_id);
    match error {
        Some(message) => words.push(WordView::Keyword("KO"@)).push(WordView::Name(message)),
        None => match value {
            Some(value) => frames::with_ttl(
                words.push(WordView::Keyword("SET"@)).push(WordView::Name(namespace)).push(
                    WordView::Name(key),
                ).push(WordView::Json(value)),
                ttl_seconds,
            ),
            None => words.push(WordView::Keyword("MISS"@)),
        },
    }
}

/// The words of an adapter's answer to an operation.
pub open spec fn operation_words(request_id: Uuid, error: Option<Seq<char>>) -> Seq<WordView> {
    let words = callback("OPERATION"@, request_id);
    match error {
        Some(message) => words.push(WordView::Keyword("KO"@)).push(WordView::Name(message)),
        None => words.push(WordView::Keyword("OK"@)),
    }
}

/// The words of an adapter's answer, if it answers the request.
pub open spec fn server_result_words(
    command: ServerCommandView,
    result: ServerResultView,
) -> Option<Seq<WordView>> {
    match (command, result) {
        (
            ServerCommandView::Query { request_id, namespace, key },
            ServerResultView::Query { request_id: actual, value, error, ttl_seconds },
        ) => if actual == request_id {
            Some(query_result_words(namespace, key, request_id, value, error, ttl_seconds))
        } else {
            None
        },
        (ServerCommandView::Query { .. }, _) => None,
        (_, ServerResultView::Operation { request_id: actual, error }) => if actual
            == command.request_id() {
            Some(operation_words(actual, error))
        } else {
            None
        },
        _ => None,
    }
}

/// The frame of an adapter's answer, or why it has none.
pub open spec fn encoded_server_result(
    command: ServerCommandView,
    result: ServerResultView,
) -> Result<Seq<char>, ErrorView> {
    match server_result_words(command, result) {
        Some(words) => Ok(words::line(words)),
        None => frames::refused("callback result kind mismatch"@),
    }
}

/// Writes an adapter's answer as a frame.
pub fn encode_server_result(command: &ServerCommand, result: &ServerResult) -> (r: Result<
    String,
    Error,
>)
    ensures
        crate::error::outcome(r) == encoded_server_result(command@, result@),
{
    match command {
        ServerCommand::Query { request_id, namespace, key } => match result {
            ServerResult::Query { request_id: actual, value, error, ttl_seconds } => {
                if *actual != *request_id {
                    return Err(protocol("callback result kind mismatch"));
                }
                let mut line = Line::start("QUERY_RESULT");
                line.id(*request_id);
                match error {
                    Some(message) => {
                        line.keyword("KO");
                        line.name(message.as_str());
                    },
                    None => match value {
                        Some(value) => {
                            line.keyword("SET");
                            line.name(namespace.as_str());
                            line.name(key.as_str());
                            line.json(value);
                            add_ttl(&mut line, *ttl_seconds);
                        },
                        None => {
                            line.keyword("MISS");
                        },
                    },
                }
                Ok(line.text)
            },
            _ => Err(protocol("callback result kind mismatch")),
        },
        _ => match result {
            ServerResult::Operation { request_id: actual, error } => {
                if *actual != command.request_id() {
                    return Err(protocol("callback result kind mismatch"));
                }
                let mut line = Line::start("OPERATION");
                line.id(*actual);
                match error {
                    Some(message) => {
                        line.keyword("KO");
                        line.name(message.as_str());
                    },
                    None => {
                        line.keyword("OK");
                    },
                }
                Ok(line.text)
            },
            _ => Err(protocol("callback result kind mismatch")),
        },
    }
}

/// The words of an adapter's answer to a query, behind its identifier.
pub open spec fn query_result_of(
    namespace: Seq<char>,
    key: Seq<char>,
    request_id: Uuid,
    t: Seq<TokenView>,
) -> Result<ServerResultView, ErrorView> {
    match frames::expect_keyword(t, 0, "QUERY_RESULT"@) {
        Err(error) => Err(error),
        Ok(_) => if t.len() < 3 {
            frames::refused("missing argument"@)
        } else if frames::is_keyword(t, 2, "MISS"@) {
            if t.len() != 3 {
                frames::wrong_count()
            } else {
                Ok(
                    ServerResultView::Query {
                        request_id,
                        value: None,
                        error: None,
                        ttl_seconds: None,
                    },
                )
            }
        } else if frames::is_keyword(t, 2, "KO"@) {
            if t.len() != 4 {
                frames::wrong_count()
            } else {
                Ok(
                    ServerResultView::Query {
                        request_id,
                        value: None,
                        error: Some(t[3].text),
                        ttl_seconds: None,
                    },
                )
            }
        } else if frames::is_keyword(t, 2, "SET"@) {
            if !(t.len() == 6 || t.len() == 8) || t[3].text != namespace || t[4].text != key {
                frames::refused("callback route mismatch"@)
            } else {
                match frames::arg_value(t[5]) {
                    Err(error) => Err(error),
                    Ok(value) => match frames::arg_ttl(t, 6) {
                        Err(error) => Err(error),
                        Ok(ttl_seconds) => Ok(
                            ServerResultView::Query {
                                request_id,
                                value: Some(value),
                                error: None,
                                ttl_seconds,
                            },
                        ),
                    },
                }
            }
        } else {
            frames::refused("invalid query result"@)
        },
    }
}

/// The words of an adapter's answer to an operation, behind its identifier.
pub open spec fn operation_of(request_id: Uuid, t: Seq<TokenView>) -> Result<
    ServerResultView,
    ErrorView,
> {
    match frames::expect_keyword(t, 0, "OPERATION"@) {
        Err(error) => Err(error),
        Ok(_) => if t.len() < 3 {
            frames::refused("missing argument"@)
        } else if frames::is_keyword(t, 2, "OK"@) {
            if t.len() != 3 {
                frames::wrong_count()
            } else {
                Ok(ServerResultView::Operation { request_id, error: None })
            }
        } else if frames::is_keyword(t, 2, "KO"@) {
            if t.len() != 4 {
                frames::wrong_count()
            } else {
                Ok(ServerResultView::Operation { request_id, error: Some(t[3].text) })
            }
        } else {
            frames::refused("invalid operation result"@)
        },
    }
}

/// The adapter's answer to a request that the words of a frame write.
pub open spec fn server_result_of(command: ServerCommandView, t: Seq<TokenView>) -> Result<
    ServerResultView,
    ErrorView,
> {
    if t[0].quoted {
        frames::refused("callback result keyword must be unquoted"@)
    } else {
        match frames::arg_uuid(t, 1) {
            Err(error) => Err(error),
            Ok(id) => if id != command.request_id() {
                frames::refused("callback correlation mismatch"@)
            } else {
                match command {
                    ServerCommandView::Query { namespace, key, .. } => query_result_of(
                        namespace,
                        key,
                        id,
                        t,
                    ),
                    _ => operation_of(id, t),
                }
            },
        }
    }
}

/// The adapter's answer to a request that a frame writes.
pub open spec fn decoded_server_result(command: ServerCommandView, frame: Seq<char>) -> Result<
    ServerResultView,
    ErrorView,
> {
    match wire::frame_words(frame) {
        Err(error) => Err(error),
        Ok(t) => server_result_of(command, t),
    }
}

fn decode_query_result(
    expected_namespace: &str,
    expected_key: &str,
    request_id: Uuid,
    t: &Vec<Token>,
) -> (r: Result<ServerResult, Error>)
    ensures
        crate::error::outcome(r) == query_result_of(
            expected_namespace@,
            expected_key@,
            request_id,
            frames::token_views(t@),
        ),
        t.len() == 6 || t.len() == 8 ==> frames::faithful_value(frames::token_views(t@)[5]),
{
    let parsed = if t.len() == 6 || t.len() == 8 {
        Some(value(&t[5]))
    } else {
        None
    };
    match keyword(t, 0, "QUERY_RESULT") {
        Ok(_) => {},
        Err(error) => {
            return Err(error);
        },
    }
    if t.len() < 3 {
        return Err(protocol("missing argument"));
    }
    if is_unquoted(t, 2, "MISS") {
        if t.len() != 3 {
            return Err(protocol("unexpected number of arguments"));
        }
        Ok(ServerResult::Query { request_id, value: None, error: None, ttl_seconds: None })
    } else if is_unquoted(t, 2, "KO") {
        if t.len() != 4 {
            return Err(protocol("unexpected number of arguments"));
        }
        Ok(
            ServerResult::Query {
                request_id,
                value: None,
                error: Some(t[3].text.clone()),
                ttl_seconds: None,
            },
        )
    } else if is_unquoted(t, 2, "SET") {
        match parsed {
            Some(parsed) => {
                if !text::same(t[3].text.as_str(), expected_namespace) || !text::same(
                    t[4].text.as_str(),
                    expected_key,
                ) {
                    return Err(protocol("callback route mismatch"));
                }
                match parsed {
                    Err(error) => Err(error),
                    Ok(value) => match ttl(t, 6) {
                        Err(error) => Err(error),
                        Ok(ttl_seconds) => Ok(
                            ServerResult::Query {
                                request_id,
                                value: Some(value),
                                error: None,
                                ttl_seconds,
                            },
                        ),
                    },
                }
            },
            None => Err(protocol("callback route mismatch")),
        }
    } else {
        Err(protocol("invalid query result"))
    }
}

fn decode_operation(request_id: Uuid, t: &Vec<Token>) -> (r: Result<ServerResult, Error>)
    ensures
        crate::error::outcome(r) == operation_of(request_id, frames::token_views(t@)),
{
    match keyword(t, 0, "OPERATION") {
        Ok(_) => {},
        Err(error) => {
            return Err(error);
        },
    }
    if t.len() < 3 {
        return Err(protocol("missing argument"));
    }
    if is_unquoted(t, 2, "OK") {
        if t.len() != 3 {
            return Err(protocol("unexpected number of arguments"));
        }
        Ok(ServerResult::Operation { request_id, error: None })
    } else if is_unquoted(t, 2, "KO") {
        if t.len() != 4 {
            return Err(protocol("unexpected number of arguments"));
        }
        Ok(ServerResult::Operation { request_id, error: Some(t[3].text.clone()) })
    } else {
        Err(protocol("invalid operation result"))
    }
}

/// An adapter's answer that the wire gives back: an answer to a query carries a
/// message, a value or neither, and a time to live only with a value.
pub open spec fn wire_server_result(result: ServerResultView) -> bool {
    match result {
        ServerResultView::Operation { error, .. } => error matches Some(message)
            ==> words::wire_text(message),
        ServerResultView::Query { value, error, ttl_seconds, .. } => {
            &&& error matches Some(message) ==> words::wire_text(message) && value is None
            &&& value matches Some(value) ==> words::writable(WordView::Json(value))
            &&& value is None ==> ttl_seconds is None
        },
    }
}

proof fn lemma_server_result_writable(command: ServerCommandView, result: ServerResultView)
    requires
        wire_server_command(command),
        wire_server_result(result),
        server_result_words(command, result) is Some,
    ensures
        server_result_words(command, result)->0.len() > 1,
        server_result_words(command, result)->0[0] is Keyword,
        server_result_words(command, result)->0[1] == WordView::Id(command.request_id()),
        forall|k: int|
            0 <= k < server_result_words(command, result)->0.len() ==> words::writable(
                #[trigger] server_result_words(command, result)->0[k],
            ),
{
    lemma_literals();
}

/// The facts on outside readers that decoding an answer rests on.
spec fn faithful_server_result(command: ServerCommandView, t: Seq<TokenView>) -> bool {
    &&& t.len() > 1 ==> frames::faithful_id(t[1])
    &&& command is Query && frames::arg_uuid(t, 1) == Ok::<Uuid, ErrorView>(command.request_id())
        && (t.len() == 6 || t.len() == 8) ==> frames::faithful_value(t[5])
}

proof fn lemma_server_result_of(command: ServerCommandView, result: ServerResultView)
    requires
        wire_server_command(command),
        wire_server_result(result),
        server_result_words(command, result) is Some,
        faithful_server_result(
            command,
            words::word_tokens(server_result_words(command, result)->0),
        ),
    ensures
        server_result_of(command, words::word_tokens(server_result_words(command, result)->0))
            == Ok::<ServerResultView, ErrorView>(result),
{
    lemma_literals();
    lemma_server_result_writable(command, result);
    let all = server_result_words(command, result)->0;
    let t = words::word_tokens(all);
    assert(t[0] == words::word_token(all[0]));
    assert(t[1] == words::word_token(all[1]));
    assert(t[2] == words::word_token(all[2]));
    frames::lemma_id(t, 1, command.request_id());
    match result {
        ServerResultView::Operation { request_id, error } => {
            if error is Some {
                assert(t[3] == words::word_token(all[3]));
            }
        },
        ServerResultView::Query { request_id, value, error, ttl_seconds } => {
            if error is Some {
                assert(t[3] == words::word_token(all[3]));
            } else if let Some(value) = value {
                assert(t[3] == words::word_token(all[3]));
                assert(t[4] == words::word_token(all[4]));
                frames::lemma_value(t[5], value);
                if let Some(n) = ttl_seconds {
                    assert(t[6] == words::word_token(WordView::Keyword("EX"@)));
                    frames::lemma_number(t, 7, n);
                }
            }
        },
    }
}

/// Reads an adapter's answer to a request from a frame. An answer that the wire
/// can carry is read back from the frame that [`encode_server_result`] writes.
pub fn decode_server_result(command: &ServerCommand, frame: &str) -> (r: Result<
    ServerResult,
    Error,
>)
    ensures
        crate::error::outcome(r) == decoded_server_result(command@, frame@),
        forall|result: ServerResultView|
            #![trigger encoded_server_result(command@, result)]
            wire_server_command(command@) && wire_server_result(result) && encoded_server_result(
                command@,
                result,
            ) == Ok::<Seq<char>, ErrorView>(frame@) && wire::byte_length(frame@)
                <= wire::MAX_FRAME_BYTES ==> crate::error::outcome(r) == Ok::<
                ServerResultView,
                ErrorView,
            >(result),
{
    let scanned = wire::tokens(frame);
    proof {
        assert forall|result: ServerResultView|
            #![trigger encoded_server_result(command@, result)]
            wire_server_command(command@) && wire_server_result(result) && encoded_server_result(
                command@,
                result,
            ) == Ok::<Seq<char>, ErrorView>(frame@) && wire::byte_length(frame@)
                <= wire::MAX_FRAME_BYTES implies wire::frame_words(frame@) == Ok::<
            Seq<TokenView>,
            ErrorView,
        >(words::word_tokens(server_result_words(command@, result)->0)) by {
            lemma_server_result_writable(command@, result);
            words::scan_conditions(server_result_words(command@, result)->0);
            words::scan_after_write(server_result_words(command@, result)->0);
        }
    }
    let t = match scanned {
        Ok(t) => t,
        Err(error) => {
            return Err(error);
        },
    };
    let ghost views = frames::token_views(t@);
    let r = dispatch_server_result(command, &t);
    proof {
        assert forall|result: ServerResultView|
            #![trigger encoded_server_result(command@, result)]
            wire_server_command(command@) && wire_server_result(result) && encoded_server_result(
                command@,
                result,
            ) == Ok::<Seq<char>, ErrorView>(frame@) && wire::byte_length(frame@)
                <= wire::MAX_FRAME_BYTES implies server_result_of(command@, views) == Ok::<
            ServerResultView,
            ErrorView,
        >(result) by {
            lemma_server_result_writable(command@, result);
            assert(views[0] == words::word_token(server_result_words(command@, result)->0[0]));
            lemma_server_result_of(command@, result);
        }
    }
    r
}

fn dispatch_server_result(command: &ServerCommand, t: &Vec<Token>) -> (r: Result<
    ServerResult,
    Error,
>)
    requires
        t.len() > 0,
    ensures
        crate::error::outcome(r) == server_result_of(command@, frames::token_views(t@)),
        !frames::token_views(t@)[0].quoted ==> faithful_server_result(
            command@,
            frames::token_views(t@),
        ),
{
    if t[0].quoted {
        return Err(protocol("callback result keyword must be unquoted"));
    }
    let id: Uuid = match uuid(t, 1) {
        Ok(id) => id,
        Err(error) => {
            return Err(error);
        },
    };
    if id != command.request_id() {
        return Err(protocol("callback correlation mismatch"));
    }
    match command {
        ServerCommand::Query { namespace, key, .. } => decode_query_result(
            namespace.as_str(),
            key.as_str(),
            id,
            t,
        ),
        _ => decode_operation(id, t),
    }
}

/// The words of an adapter's answer, by the first of them.
pub open spec fn is_answer(t: Seq<TokenView>) -> bool {
    !t[0].quoted && (t[0].text == "OPERATION"@ || t[0].text == "QUERY_RESULT"@)
}

/// The identifier that an adapter's answer repeats.
pub open spec fn callback_id(frame: Seq<char>) -> Result<Uuid, ErrorView> {
    match wire::frame_words(frame) {
        Err(error) => Err(error),
        Ok(t) => if is_answer(t) {
            frames::arg_uuid(t, 1)
        } else {
            frames::refused("not a callback result"@)
        },
    }
}

/// The identifier that an adapter's answer repeats: that of the request, in the frame
/// that [`encode_server_result`] writes.
pub fn callback_request_id(frame: &str) -> (r: Result<Uuid, Error>)
    ensures
        crate::error::outcome(r) == callback_id(frame@),
        match wire::frame_words(frame@) {
            Ok(t) => is_answer(t) && t.len() > 1 ==> forall|id: Uuid|
                t[1].text == #[trigger] words::uuid_text(id) ==> r == Ok::<Uuid, Error>(id),
            Err(_) => true,
        },
        forall|command: ServerCommandView, result: ServerResultView|
            #![trigger encoded_server_result(command, result)]
            wire_server_command(command) && wire_server_result(result) && encoded_server_result(
                command,
                result,
            ) == Ok::<Seq<char>, ErrorView>(frame@) && wire::byte_length(frame@)
                <= wire::MAX_FRAME_BYTES ==> r == Ok::<Uuid, Error>(command.request_id()),
{
    let scanned = wire::tokens(frame);
    proof {
        assert forall|command: ServerCommandView, result: ServerResultView|
            #![trigger encoded_server_result(command, result)]
            wire_server_command(command) && wire_server_result(result) && encoded_server_result(
                command,
                result,
            ) == Ok::<Seq<char>, ErrorView>(frame@) && wire::byte_length(frame@)
                <= wire::MAX_FRAME_BYTES implies match wire::frame_words(frame@) {
            Ok(t) => is_answer(t) && t.len() > 1 && t[1].text == words::uuid_text(
                command.request_id(),
            ),
            Err(_) => false,
        } by {
            let written = server_result_words(command, result)->0;
            lemma_server_result_writable(command, result);
            words::scan_conditions(written);
            words::scan_after_write(written);
            assert(words::word_tokens(written)[0] == words::word_token(written[0]));
            assert(words::word_tokens(written)[1] == words::word_token(written[1]));
        }
    }
    let t = match scanned {
        Ok(t) => t,
        Err(error) => {
            return Err(error);
        },
    };
    let name = t[0].text.as_str();
    if t[0].quoted || (!text::same(name, "OPERATION") && !text::same(name, "QUERY_RESULT")) {
        return Err(protocol("not a callback result"));
    }
    uuid(&t, 1)
}

} // verus!
