//! How a namespace is synchronised: what is listed and read, and in which order.

use crate::json::{self, JsonView};
use crate::openbao::bridge::{BaoValueView, OpenBaoValue};
use crate::openbao::client::{self, Answer, ServerView, VersionedView};
use crate::openbao::error::AdapterErrorView;
use crate::openbao::index;
use crate::openbao::mapping;
use crate::openbao::sync::{self, ListingView, ReadingView, SyncStepView};
use crate::order;
use crate::route;
use crate::text;
use vstd::prelude::*;

verus! {

/// A name that is a part of a digest: sixteen small hexadecimal digits, and behind them
/// the slash of what has more below it.
pub open spec fn is_part(name: Seq<char>, is_collection: bool) -> bool {
    &&& name.len() == if is_collection {
        17nat
    } else {
        16nat
    }
    &&& is_collection ==> name[16] == '/'
    &&& forall|i: int|
        0 <= i < 16 ==> ('0' <= #[trigger] name[i] && name[i] <= '9') || ('a' <= name[i] && name[i]
            <= 'f')
}

/// What the first names stand for below a path, the last of them first.
pub open spec fn below(
    path: Seq<char>,
    parts: Seq<Seq<char>>,
    names: Seq<Seq<char>>,
    n: int,
) -> Seq<(Seq<char>, Seq<Seq<char>>)> {
    Seq::new(
        n as nat,
        |i: int| (path + "/"@ + names[n - 1 - i].take(16), parts.push(names[n - 1 - i].take(16))),
    )
}

proof fn lemma_part(name: Seq<char>)
    ensures
        is_part(name, true) <==> sync::is_digest_part(sync::bare(name)) && name.len() > 0
            && name.last() == '/',
        is_part(name, false) <==> sync::is_digest_part(sync::bare(name)) && !(name.len() > 0
            && name.last() == '/'),
        is_part(name, true) || is_part(name, false) ==> sync::bare(name) == name.take(16),
{
    let part = sync::bare(name);
    if is_part(name, true) {
        assert(part =~= name.take(16));
        assert forall|i: int| 0 <= i < 16 implies sync::is_digest_digit(#[trigger] part[i]) by {
            assert(part[i] == name[i]);
        }
    }
    if is_part(name, false) {
        assert(name[15] != '/');
        assert(part =~= name.take(16));
        assert forall|i: int| 0 <= i < 16 implies sync::is_digest_digit(#[trigger] part[i]) by {
            assert(part[i] == name[i]);
        }
    }
    if sync::is_digest_part(part) {
        assert forall|i: int| 0 <= i < 16 implies ('0' <= #[trigger] name[i] && name[i] <= '9') || (
        'a' <= name[i] && name[i] <= 'f') by {
            assert(part[i] == name[i]);
            assert(sync::is_digest_digit(part[i]));
        }
    }
}

proof fn lemma_walked(
    path: Seq<char>,
    parts: Seq<Seq<char>>,
    names: Seq<Seq<char>>,
    n: int,
    pending: Seq<(Seq<char>, Seq<Seq<char>>)>,
    found: Seq<(Seq<char>, Seq<Seq<char>>)>,
)
    requires
        0 <= n <= names.len(),
        parts.len() <= 3,
    ensures
        ({
            let all = forall|i: int| 0 <= i < n ==> is_part(#[trigger] names[i], parts.len() < 3);
            let result = sync::walked(path, parts, names, n, pending, found);
            &&& all && parts.len() < 3 ==> result == Ok::<
                (Seq<(Seq<char>, Seq<Seq<char>>)>, Seq<(Seq<char>, Seq<Seq<char>>)>),
                AdapterErrorView,
            >((pending + below(path, parts, names, n), found))
            &&& all && parts.len() == 3 ==> result == Ok::<
                (Seq<(Seq<char>, Seq<Seq<char>>)>, Seq<(Seq<char>, Seq<Seq<char>>)>),
                AdapterErrorView,
            >((pending, found + below(path, parts, names, n)))
            &&& !all ==> (result matches Err(error) && error is Configuration)
        }),
    decreases n,
{
    if n == 0 {
        assert(pending + below(path, parts, names, n) =~= pending);
        assert(found + below(path, parts, names, n) =~= found);
    } else {
        let name = names[n - 1];
        let part = sync::bare(name);
        let next = (path + "/"@ + part, parts.push(part));
        lemma_part(name);
        if is_part(name, parts.len() < 3) {
            assert(below(path, parts, names, n) =~= seq![next] + below(path, parts, names, n - 1));
            if parts.len() < 3 {
                lemma_walked(path, parts, names, n - 1, pending.push(next), found);
                assert(pending.push(next) + below(path, parts, names, n - 1) =~= pending + below(
                    path,
                    parts,
                    names,
                    n,
                ));
            } else {
                lemma_walked(path, parts, names, n - 1, pending, found.push(next));
                assert(found.push(next) + below(path, parts, names, n - 1) =~= found + below(
                    path,
                    parts,
                    names,
                    n,
                ));
            }
        }
    }
}

/// The names that a listing of keys gives are read in their order. Those of a listing of
/// permission records are parts of digests: at the first three levels each is listed in
/// turn, at the fourth each is a record to read, the later names first in the list. A
/// name that is no such part is an error.
pub proof fn listings_are_walked(
    path: Seq<char>,
    namespace: Seq<char>,
    parts: Seq<Seq<char>>,
    names: Seq<Seq<char>>,
    pending: Seq<(Seq<char>, Seq<Seq<char>>)>,
    found: Seq<(Seq<char>, Seq<Seq<char>>)>,
)
    requires
        parts.len() <= 3,
    ensures
        ({
            let sorted = order::arranged::<String>(names);
            let more = below(path, parts, sorted, sorted.len() as int);
            let all = forall|i: int|
                0 <= i < sorted.len() ==> is_part(#[trigger] sorted[i], parts.len() < 3);
            let step = sync::listing_step(
                path,
                ListingView::Digests { namespace, parts, pending, found },
                names,
            );
            &&& sync::listing_step(path, ListingView::Keys { namespace }, names) == sync::next_key(
                namespace,
                path,
                sorted,
                Seq::empty(),
            )
            &&& all && parts.len() < 3 ==> step == sync::next_path(namespace, pending + more, found)
            &&& all && parts.len() == 3 ==> step == sync::next_path(
                namespace,
                pending,
                found + more,
            )
            &&& !all ==> (step matches SyncStepView::Finished(Err(error)) && error is Configuration)
        }),
{
    let sorted = order::arranged::<String>(names);
    lemma_walked(path, parts, sorted, sorted.len() as int, pending, found);
}

/// What is left to list is listed before any record is read, the last of it first; the
/// records are then read in the order in which they were found, and are the result in
/// the order of their keys.
pub proof fn records_are_read_once_everything_is_listed(
    namespace: Seq<char>,
    path: Seq<char>,
    parts: Seq<Seq<char>>,
    pending: Seq<(Seq<char>, Seq<Seq<char>>)>,
    found: Seq<(Seq<char>, Seq<Seq<char>>)>,
    values: Seq<BaoValueView>,
)
    ensures
        sync::next_path(namespace, pending.push((path, parts)), found) == (SyncStepView::List {
            path,
            listing: ListingView::Digests { namespace, parts, pending, found },
        }),
        sync::next_path(namespace, Seq::empty(), Seq::empty()) == SyncStepView::Finished(
            Ok(Seq::empty()),
        ),
        sync::next_path(namespace, Seq::empty(), seq![(path, parts)] + found) == (
        SyncStepView::Read {
            path,
            reading: ReadingView::Record { namespace, parts, left: found, values: Seq::empty() },
        }),
        sync::next_record(namespace, seq![(path, parts)] + found, values) == (SyncStepView::Read {
            path,
            reading: ReadingView::Record { namespace, parts, left: found, values },
        }),
        sync::next_record(namespace, Seq::empty(), values) == SyncStepView::Finished(
            Ok(order::arranged::<OpenBaoValue>(values)),
        ),
        sync::reading_step(ReadingView::Record { namespace, parts, left: found, values }, None)
            == sync::next_record(namespace, found, values),
{
    assert(pending.push((path, parts)).drop_last() =~= pending);
    assert((seq![(path, parts)] + found).skip(1) =~= found);
    assert(order::arranged::<OpenBaoValue>(Seq::empty()) =~= Seq::empty());
}

/// The permission records are listed by their digests, everything else by its keys; a
/// context is listed where the index has its collection, and nowhere else.
pub proof fn namespaces_are_listed_where_they_are(
    prefix: Seq<char>,
    base: Seq<char>,
    context: Seq<char>,
    namespace: Seq<char>,
    path: Seq<char>,
    document: VersionedView,
    collection: Seq<char>,
)
    ensures
        sync::listing_of("/__auth"@, path) == (SyncStepView::List {
            path,
            listing: ListingView::Digests {
                namespace: "/__auth"@,
                parts: Seq::empty(),
                pending: Seq::empty(),
                found: Seq::empty(),
            },
        }),
        namespace != "/__auth"@ ==> sync::listing_of(namespace, path) == (SyncStepView::List {
            path,
            listing: ListingView::Keys { namespace },
        }),
        base.len() > 0 && context.len() > 0 && text::find(base + seq![':', ':'] + context, seq![':', ':'])
            == Some(base.len() as int) ==> {
            let both = base + seq![':', ':'] + context;
            &&& index::collection_in(document.value, context) == Some(collection)
                ==> sync::collection_path(prefix, both, Some(document)) == Some(
                mapping::context_path_of(prefix, base, collection),
            )
            &&& index::collection_in(document.value, context) is None ==> sync::collection_path(
                prefix,
                both,
                Some(document),
            ) is None
        },
        sync::collection_path(prefix, namespace, None) is None,
{
    let auth = "/__auth"@;
    reveal_strlit("/__auth");
    text::lemma_find_from(auth, route::delimiter(), 0);
    if let Some(at) = text::find(auth, route::delimiter()) {
        assert(auth.subrange(at, at + 2)[0] == auth[at]);
        assert(auth[0] == '/' && auth[1] == '_' && auth[2] == '_' && auth[3] == 'a' && auth[4]
            == 'u' && auth[5] == 't' && auth[6] == 'h');
        assert(auth.len() == 7);
    }
    let both = base + seq![':', ':'] + context;
    assert(both.take(base.len() as int) =~= base);
    assert(both.skip((base.len() + 2) as int) =~= context);
}

proof fn lemma_texts(items: Seq<JsonView>)
    ensures
        client::texts_of(items) matches Some(list) ==> list.len() == items.len() && forall|i: int|
            0 <= i < items.len() ==> #[trigger] items[i] == JsonView::Text(list[i]),
        client::texts_of(items) is None ==> exists|i: int|
            0 <= i < items.len() && !((#[trigger] items[i]) is Text),
    decreases items.len(),
{
    if items.len() > 0 {
        let rest = items.drop_last();
        lemma_texts(rest);
        if let Some(list) = client::texts_of(items) {
            assert forall|i: int| 0 <= i < items.len() implies #[trigger] items[i]
                == JsonView::Text(list[i]) by {
                if i < rest.len() {
                    assert(rest[i] == items[i]);
                }
            }
        } else if client::texts_of(rest) is None {
            let i: int = choose|i: int| 0 <= i < rest.len() && !((#[trigger] rest[i]) is Text);
            assert(!(items[i] is Text));
        } else {
            assert(!(items[items.len() - 1] is Text));
        }
    }
}

/// The names that a store lists are the texts of its answer, in their order; what it does
/// not have is an empty list, an answer without success an error with its status, and an
/// answer that holds anything but texts is refused.
pub proof fn answers_hold_their_names(answer: Answer, body: JsonView, data: JsonView, items: Seq<JsonView>)
    requires
        answer.body matches Ok(found) && found@ == body,
        json::member(body, "data"@) == Some(data),
        json::member(data, "keys"@) == Some(JsonView::List(items)),
    ensures
        answer.status == 404 ==> client::names_of(answer) == Ok::<Seq<Seq<char>>, AdapterErrorView>(
            Seq::empty(),
        ),
        answer.status != 404 && !(200 <= answer.status < 300) ==> client::names_of(answer) == Err::<
            Seq<Seq<char>>,
            AdapterErrorView,
        >(AdapterErrorView::OpenBao { status: answer.status_text@ }),
        200 <= answer.status < 300 ==> match client::names_of(answer) {
            Ok(names) => names.len() == items.len() && forall|i: int|
                0 <= i < items.len() ==> #[trigger] items[i] == JsonView::Text(names[i]),
            Err(error) => error is Configuration && exists|i: int|
                0 <= i < items.len() && !((#[trigger] items[i]) is Text),
        },
{
    lemma_texts(items);
}

/// The token of a login is what its answer calls the client's; an answer without success
/// is an error with its status, and one without a token is refused.
pub proof fn logins_give_their_token(answer: Answer, body: JsonView, auth: JsonView)
    requires
        answer.body matches Ok(found) && found@ == body,
        json::member(body, "auth"@) == Some(auth),
    ensures
        200 <= answer.status < 300 ==> match json::member(auth, "client_token"@) {
            Some(JsonView::Text(token)) => client::login_token_of(answer) == Ok::<
                Seq<char>,
                AdapterErrorView,
            >(token),
            _ => client::login_token_of(answer) matches Err(error) && error is Configuration,
        },
        !(200 <= answer.status < 300) ==> client::login_token_of(answer) == Err::<
            Seq<char>,
            AdapterErrorView,
        >(AdapterErrorView::OpenBao { status: answer.status_text@ }),
{
}

/// The server is the one of the address, with the mount between its slashes; an address
/// that is no URL is refused.
pub proof fn servers_have_their_address(
    address: Seq<char>,
    mount: Seq<char>,
    failure: Seq<char>,
)
    ensures
        client::server(address, mount, None) == Ok::<ServerView, AdapterErrorView>(
            ServerView { address, mount: mapping::without_slashes(mount) },
        ),
        client::server(address, mount, Some(failure)) is Err,
{
}

/// Percent signs of a path are escaped one by one, and nothing else is changed.
pub proof fn percent_signs_are_escaped(before: Seq<char>, after: Seq<char>, c: char)
    ensures
        client::escaped_percents(before + after) == client::escaped_percents(before)
            + client::escaped_percents(after),
        client::escaped_percents(seq!['%']) == seq!['%', '2', '5'],
        c != '%' ==> client::escaped_percents(seq![c]) == seq![c],
        client::escaped_percents(Seq::empty()) == Seq::<char>::empty(),
    decreases after.len(),
{
    reveal_with_fuel(client::escaped_percents, 2);
    assert(seq!['%'].drop_last() =~= Seq::<char>::empty());
    assert(seq![c].drop_last() =~= Seq::<char>::empty());
    assert(seq!['%'].last() == '%' && seq![c].last() == c);
    assert(client::escaped_percents(seq!['%']) =~= seq!['%', '2', '5']);
    if after.len() == 0 {
        assert(before + after =~= before);
        assert(client::escaped_percents(before) + Seq::<char>::empty() =~= client::escaped_percents(
            before,
        ));
    } else {
        percent_signs_are_escaped(before, after.drop_last(), c);
        assert((before + after).drop_last() =~= before + after.drop_last());
        assert((before + after).last() == after.last());
        let last = if after.last() == '%' {
            seq!['%', '2', '5']
        } else {
            seq![after.last()]
        };
        assert(client::escaped_percents(before) + client::escaped_percents(after.drop_last()) + last
            =~= client::escaped_percents(before) + (client::escaped_percents(after.drop_last())
            + last));
    }
}

} // verus!
