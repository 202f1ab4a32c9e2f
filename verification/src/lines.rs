//! Every frame is one line.

use crate::json::{self, JsonView};
use crate::line_callback;
use crate::line_protocol;
use crate::protocol::{CommandView, ResponseView, ServerCommandView, ServerResultView};
use crate::text;
use crate::words::{self, WordView};
use vstd::prelude::*;

verus! {

/// A text without control characters, line feeds and carriage returns among them.
pub open spec fn one_line(s: Seq<char>) -> bool {
    forall|i: int| 0 <= i < s.len() ==> (#[trigger] s[i]) as int >= 32
}

/// The numbers of a value are written without control characters, as every JSON
/// number is.
pub open spec fn plain_numbers(value: JsonView) -> bool
    decreases value,
{
    match value {
        JsonView::Number(text) => one_line(text),
        JsonView::List(items) => plain_items(items),
        JsonView::Object(members) => plain_members(members),
        _ => true,
    }
}

/// [`plain_numbers`] of every item.
pub open spec fn plain_items(items: Seq<JsonView>) -> bool
    decreases items,
{
    items.len() == 0 || (plain_numbers(items.last()) && plain_items(items.drop_last()))
}

/// [`plain_numbers`] of every value.
pub open spec fn plain_members(members: Seq<(Seq<char>, JsonView)>) -> bool
    decreases members,
{
    members.len() == 0 || (plain_numbers(members.last().1) && plain_members(members.drop_last()))
}

proof fn lemma_escape(c: char)
    ensures
        one_line(json::escape(c)),
{
    if (c as int) < 32 {
        assert(json::hex_digit(c as int / 16) as int >= 48);
        assert(json::hex_digit(c as int % 16) as int >= 48);
    }
}

proof fn lemma_escaped(s: Seq<char>)
    ensures
        one_line(json::escaped(s)),
    decreases s.len(),
{
    if s.len() > 0 {
        lemma_escaped(s.drop_last());
        lemma_escape(s.last());
    }
}

proof fn lemma_quoted(s: Seq<char>)
    ensures
        one_line(json::quoted(s)),
{
    lemma_escaped(s);
}

proof fn lemma_json(value: JsonView)
    requires
        plain_numbers(value),
    ensures
        one_line(json::json_text(value)),
    decreases value,
{
    match value {
        JsonView::Text(text) => lemma_quoted(text),
        JsonView::List(items) => lemma_items(items),
        JsonView::Object(members) => lemma_members(members),
        _ => {},
    }
}

proof fn lemma_items(items: Seq<JsonView>)
    requires
        plain_items(items),
    ensures
        one_line(json::items_text(items)),
    decreases items,
{
    if items.len() > 0 {
        lemma_json(items.last());
        lemma_items(items.drop_last());
    }
}

proof fn lemma_members(members: Seq<(Seq<char>, JsonView)>)
    requires
        plain_members(members),
    ensures
        one_line(json::members_text(members)),
    decreases members,
{
    if members.len() > 0 {
        lemma_quoted(members.last().0);
        lemma_json(members.last().1);
        lemma_members(members.drop_last());
    }
}

/// A word whose text is part of a line.
pub open spec fn plain_word(word: WordView) -> bool {
    match word {
        WordView::Keyword(text) => one_line(text),
        WordView::Json(value) => plain_numbers(value),
        _ => true,
    }
}

/// Words whose texts are parts of a line.
pub open spec fn plain_words(words: Seq<WordView>) -> bool {
    forall|i: int| 0 <= i < words.len() ==> plain_word(#[trigger] words[i])
}

proof fn lemma_word(word: WordView)
    requires
        plain_word(word),
    ensures
        one_line(words::word_text(word)),
{
    match word {
        WordView::Keyword(_) => {},
        WordView::Name(text) => {
            lemma_quoted(text);
            if words::safe(text) {
                assert forall|i: int| 0 <= i < text.len() implies (#[trigger] text[i]) as int
                    >= 32 by {
                    assert(words::safe_char(text[i]));
                }
            }
        },
        WordView::Quoted(text) => lemma_quoted(text),
        WordView::Json(value) => lemma_json(value),
        WordView::Number(n) => {
            text::lemma_decimal(n);
            let s = text::decimal(n);
            assert forall|i: int| 0 <= i < s.len() implies (#[trigger] s[i]) as int >= 32 by {
                assert(text::is_digit(s[i]));
            }
        },
        WordView::Id(id) => {
            let s = words::uuid_text(id);
            assert forall|i: int| 0 <= i < s.len() implies (#[trigger] s[i]) as int >= 32 by {
                let d = words::uuid_digit(id, i - words::hyphens_before(i));
                assert(d as int >= 32);
            }
        },
    }
}

proof fn lemma_line(words: Seq<WordView>)
    requires
        plain_words(words),
    ensures
        one_line(words::line(words)),
    decreases words.len(),
{
    if words.len() == 1 {
        lemma_word(words[0]);
    } else if words.len() > 1 {
        lemma_word(words.last());
        lemma_line(words.drop_last());
    }
}

/// The values of entries have plain numbers.
pub open spec fn plain_entries(entries: Seq<(Seq<char>, JsonView)>) -> bool {
    forall|i: int| 0 <= i < entries.len() ==> plain_numbers((#[trigger] entries[i]).1)
}

proof fn lemma_entries(words: Seq<WordView>, entries: Seq<(Seq<char>, JsonView)>)
    requires
        plain_words(words),
        plain_entries(entries),
    ensures
        plain_words(line_protocol::with_entries(words, entries)),
    decreases entries.len(),
{
    if entries.len() > 0 {
        lemma_entries(words, entries.drop_last());
    }
}

proof fn lemma_ttl(words: Seq<WordView>, ttl: Option<u64>)
    requires
        plain_words(words),
    ensures
        plain_words(line_protocol::with_ttl(words, ttl)),
{
    reveal_strlit("EX");
}

/// The values of a command have plain numbers.
pub open spec fn plain_command(command: CommandView) -> bool {
    match command {
        CommandView::SetValue { value, .. } => plain_numbers(value),
        CommandView::SetBatch { entries, .. } => plain_entries(entries),
        _ => true,
    }
}

/// The frame of a command is one line.
pub proof fn command_frames_are_lines(command: CommandView)
    requires
        plain_command(command),
    ensures
        line_protocol::encoded_command(command) matches Ok(frame) ==> one_line(frame),
{
    reveal_strlit("AUTH");
    reveal_strlit("ADAPTER");
    reveal_strlit("GET");
    reveal_strlit("SET");
    reveal_strlit("SET_BATCH");
    reveal_strlit("DELETE");
    reveal_strlit("MOVE");
    reveal_strlit("PROVIDE");
    reveal_strlit("MAX_RATE");
    reveal_strlit("TIMEOUT");
    reveal_strlit("MISS_TTL");
    reveal_strlit("STORE");
    reveal_strlit("PING");
    reveal_strlit("STATS");
    match command {
        CommandView::SetValue { namespace, key, value, ttl_seconds } => {
            lemma_ttl(
                line_protocol::starting("SET"@).push(WordView::Name(namespace)).push(
                    WordView::Name(key),
                ).push(WordView::Json(value)),
                ttl_seconds,
            );
        },
        CommandView::SetBatch { namespace, entries, ttl_seconds } => {
            let start = line_protocol::starting("SET_BATCH"@).push(WordView::Name(namespace));
            lemma_entries(start, entries);
            lemma_ttl(line_protocol::with_entries(start, entries), ttl_seconds);
        },
        _ => {},
    }
    lemma_line(line_protocol::command_words(command));
}

/// The frame of an answer is one line.
pub proof fn answer_frames_are_lines(command: CommandView, response: ResponseView)
    requires
        response matches ResponseView::Value { value, .. } ==> plain_numbers(value),
    ensures
        line_protocol::encoded_response(command, response) matches Ok(frame) ==> one_line(frame),
{
    reveal_strlit("OK");
    reveal_strlit("SET");
    reveal_strlit("MISS");
    reveal_strlit("UNKNOWN");
    reveal_strlit("TTL");
    reveal_strlit("KO");
    reveal_strlit("PONG");
    reveal_strlit("STATS");
    reveal_strlit("REQUESTS");
    reveal_strlit("HITS");
    reveal_strlit("MISSES");
    reveal_strlit("VALUES");
    if let ResponseView::Value { value, ttl_seconds } = response {
        if let CommandView::Get { namespace, key } = command {
            lemma_ttl(
                line_protocol::starting("SET"@).push(WordView::Name(namespace)).push(
                    WordView::Name(key),
                ).push(WordView::Json(value)),
                ttl_seconds,
            );
        }
    }
    lemma_line(line_protocol::response_words(command, response));
}

/// The values of a server-initiated request have plain numbers.
pub open spec fn plain_server_command(command: ServerCommandView) -> bool {
    match command {
        ServerCommandView::PersistSet { value, .. } => plain_numbers(value),
        ServerCommandView::PersistSetBatch { entries, .. } => plain_entries(entries),
        _ => true,
    }
}

/// The frame of a server-initiated request is one line.
pub proof fn callback_frames_are_lines(command: ServerCommandView)
    requires
        plain_server_command(command),
    ensures
        one_line(line_callback::encoded_server_command(command)),
{
    reveal_strlit("QUERY");
    reveal_strlit("PERSIST_SET");
    reveal_strlit("PERSIST_SET_BATCH");
    reveal_strlit("PERSIST_DELETE");
    reveal_strlit("PERSIST_MOVE");
    match command {
        ServerCommandView::PersistSet { request_id, namespace, key, value, ttl_seconds } => {
            lemma_ttl(
                line_callback::callback("PERSIST_SET"@, request_id).push(
                    WordView::Name(namespace),
                ).push(WordView::Name(key)).push(WordView::Json(value)),
                ttl_seconds,
            );
        },
        ServerCommandView::PersistSetBatch { request_id, namespace, entries, ttl_seconds } => {
            let start = line_callback::callback("PERSIST_SET_BATCH"@, request_id).push(
                WordView::Name(namespace),
            );
            lemma_entries(start, entries);
            lemma_ttl(line_protocol::with_entries(start, entries), ttl_seconds);
        },
        _ => {},
    }
    lemma_line(line_callback::server_command_words(command));
}

/// The frame of an adapter's answer is one line.
pub proof fn result_frames_are_lines(command: ServerCommandView, result: ServerResultView)
    requires
        result matches ServerResultView::Query { value: Some(value), .. } ==> plain_numbers(value),
    ensures
        line_callback::encoded_server_result(command, result) matches Ok(frame) ==> one_line(frame),
{
    reveal_strlit("QUERY_RESULT");
    reveal_strlit("KO");
    reveal_strlit("SET");
    reveal_strlit("MISS");
    reveal_strlit("OPERATION");
    reveal_strlit("OK");
    if let ServerResultView::Query { value: Some(value), ttl_seconds, .. } = result {
        if let ServerCommandView::Query { request_id, namespace, key } = command {
            lemma_ttl(
                line_callback::callback("QUERY_RESULT"@, request_id).push(
                    WordView::Keyword("SET"@),
                ).push(WordView::Name(namespace)).push(WordView::Name(key)).push(
                    WordView::Json(value),
                ),
                ttl_seconds,
            );
        }
    }
    if let Some(words) = line_callback::server_result_words(command, result) {
        lemma_line(words);
    }
}

} // verus!
