//! What the messages of errors tell.

use crate::client::ClientErrorView;
use crate::db;
use crate::error::ErrorView;
use crate::openbao;
use crate::route::RouteView;
use crate::text;
use vstd::prelude::*;

verus! {

/// A message that ends with a text, behind words of its own.
pub open spec fn tells(message: Seq<char>, text: Seq<char>) -> bool {
    message.len() > text.len() && message.skip(message.len() - text.len()) == text
}

proof fn lemma_tells(words: Seq<char>, text: Seq<char>)
    requires
        words.len() > 0,
    ensures
        tells(words + text, text),
{
    let message = words + text;
    assert(message.skip(message.len() - text.len()) =~= text);
}

proof fn lemma_words()
    ensures
        "route not found: "@.len() > 0,
        "destination namespace already exists: "@.len() > 0,
        "invalid protocol message: "@.len() > 0,
        "connection error: "@.len() > 0,
        "permission denied for namespace: "@.len() > 0,
        "invalid authorization record: "@.len() > 0,
        "encryption failed: "@.len() > 0,
        "connection failed: "@.len() > 0,
        "TLS handshake failed: "@.len() > 0,
        "protocol frame failed: "@.len() > 0,
        "invalid server response: "@.len() > 0,
        "server error: "@.len() > 0,
        "unexpected server response: "@.len() > 0,
        "invalid client configuration: "@.len() > 0,
        "server authentication failed: "@.len() > 0,
{
    reveal_strlit("route not found: ");
    reveal_strlit("destination namespace already exists: ");
    reveal_strlit("invalid protocol message: ");
    reveal_strlit("connection error: ");
    reveal_strlit("permission denied for namespace: ");
    reveal_strlit("invalid authorization record: ");
    reveal_strlit("encryption failed: ");
    reveal_strlit("connection failed: ");
    reveal_strlit("TLS handshake failed: ");
    reveal_strlit("protocol frame failed: ");
    reveal_strlit("invalid server response: ");
    reveal_strlit("server error: ");
    reveal_strlit("unexpected server response: ");
    reveal_strlit("invalid client configuration: ");
    reveal_strlit("server authentication failed: ");
}

/// The message of an error tells what it is about: the route, the namespace, or the text
/// that came with it.
pub proof fn errors_tell_what_they_are_about(text: Seq<char>, route: RouteView)
    ensures
        tells(ErrorView::NotFound(route).message(), route.namespace + "/"@ + route.key),
        tells(ErrorView::NamespaceExists(text).message(), text),
        tells(ErrorView::Protocol(text).message(), text),
        tells(ErrorView::Connection(text).message(), text),
        tells(ErrorView::PermissionDenied(text).message(), text),
        tells(ErrorView::InvalidAuthorization(text).message(), text),
        tells(ErrorView::Encryption(text).message(), text),
        text.is_prefix_of(ErrorView::EmptyIdentifier(text).message()),
{
    lemma_words();
    lemma_tells("route not found: "@, route.text());
    lemma_tells("destination namespace already exists: "@, text);
    lemma_tells("invalid protocol message: "@, text);
    lemma_tells("connection error: "@, text);
    lemma_tells("permission denied for namespace: "@, text);
    lemma_tells("invalid authorization record: "@, text);
    lemma_tells("encryption failed: "@, text);
    assert(ErrorView::EmptyIdentifier(text).message().take(text.len() as int) =~= text);
}

/// The message of a failed call tells what the server or the connection said.
pub proof fn failed_calls_tell_what_was_said(text: Seq<char>, n: u64)
    ensures
        tells(ClientErrorView::Connection(text).message(), text),
        tells(ClientErrorView::Tls(text).message(), text),
        tells(ClientErrorView::Frame(text).message(), text),
        tells(ClientErrorView::Protocol(text).message(), text),
        tells(ClientErrorView::Server(text).message(), text),
        tells(ClientErrorView::UnexpectedResponse(text).message(), text),
        tells(ClientErrorView::Configuration(text).message(), text),
        tells(ClientErrorView::Authentication(text).message(), text),
        tells(
            (ClientErrorView::AuthenticationPending { retry_after_ms: n }).message(),
            text::decimal(n as nat) + "ms"@,
        ),
{
    lemma_words();
    lemma_tells("connection failed: "@, text);
    lemma_tells("TLS handshake failed: "@, text);
    lemma_tells("protocol frame failed: "@, text);
    lemma_tells("invalid server response: "@, text);
    lemma_tells("server error: "@, text);
    lemma_tells("unexpected server response: "@, text);
    lemma_tells("invalid client configuration: "@, text);
    lemma_tells("server authentication failed: "@, text);
    let start = "authentication is warming; retry after "@;
    reveal_strlit("authentication is warming; retry after ");
    assert(start.len() > 0);
    lemma_tells(start, text::decimal(n as nat) + "ms"@);
    assert(start + text::decimal(n as nat) + "ms"@ =~= start + (text::decimal(n as nat) + "ms"@));
}

/// The messages of the adapters tell what failed in the database, the store, the route or
/// the call.
pub proof fn adapters_tell_what_failed(text: Seq<char>, error: ErrorView, call: ClientErrorView)
    ensures
        tells(db::error::AdapterErrorView::Sql(text).message(), text),
        tells(db::error::AdapterErrorView::Task(text).message(), text),
        tells(db::error::AdapterErrorView::Route(error).message(), error.message()),
        tells(db::error::AdapterErrorView::Json(text).message(), text),
        tells(db::error::AdapterErrorView::Publish(call).message(), call.message()),
        tells(db::error::AdapterErrorView::Replication(text).message(), text),
        tells(db::error::AdapterErrorView::Configuration(text).message(), text),
        tells(db::error::AdapterErrorView::ConfigurationFile(text).message(), text),
        tells(openbao::error::AdapterErrorView::Configuration(text).message(), text),
        tells(openbao::error::AdapterErrorView::ConfigurationFile(text).message(), text),
        tells(openbao::error::AdapterErrorView::Http(text).message(), text),
        tells((openbao::error::AdapterErrorView::OpenBao { status: text }).message(), text),
        tells(openbao::error::AdapterErrorView::Json(text).message(), text),
        tells(openbao::error::AdapterErrorView::Route(error).message(), error.message()),
        tells(openbao::error::AdapterErrorView::Valkyr(call).message(), call.message()),
        tells(openbao::error::AdapterErrorView::Unsupported(text).message(), text),
{
    reveal_strlit("SQL database operation failed: ");
    reveal_strlit("database task failed: ");
    reveal_strlit("row has an invalid route: ");
    reveal_strlit("row contains invalid JSON: ");
    reveal_strlit("publish failed: ");
    reveal_strlit("replication failed for endpoint(s): ");
    reveal_strlit("invalid adapter configuration: ");
    reveal_strlit("configuration file failed: ");
    reveal_strlit("OpenBao request failed: ");
    reveal_strlit("OpenBao returned status ");
    reveal_strlit("OpenBao response was invalid: ");
    reveal_strlit("route is invalid: ");
    reveal_strlit("Valkyr callback failed: ");
    reveal_strlit("operation is not supported: ");
    lemma_tells("SQL database operation failed: "@, text);
    lemma_tells("database task failed: "@, text);
    lemma_tells("row has an invalid route: "@, error.message());
    lemma_tells("row contains invalid JSON: "@, text);
    lemma_tells("publish failed: "@, call.message());
    lemma_tells("replication failed for endpoint(s): "@, text);
    lemma_tells("invalid adapter configuration: "@, text);
    lemma_tells("configuration file failed: "@, text);
    lemma_tells("OpenBao request failed: "@, text);
    lemma_tells("OpenBao returned status "@, text);
    lemma_tells("OpenBao response was invalid: "@, text);
    lemma_tells("route is invalid: "@, error.message());
    lemma_tells("Valkyr callback failed: "@, call.message());
    lemma_tells("operation is not supported: "@, text);
}

} // verus!
