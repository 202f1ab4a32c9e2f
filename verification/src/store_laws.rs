//! What the in-memory store keeps and gives, and what envelopes hold.

use crate::crypto;
use crate::error::ErrorView;
use crate::json::{self, JsonView};
use crate::memory::{self, ChangeView, EntryView};
use crate::route::{self, RouteView};
use crate::security;
use crate::store::StoredView;
use crate::text;
use vstd::prelude::*;

verus! {

/// A key that a pattern stands for: with a star at its end one that begins with the text
/// before the star, else the key itself.
pub open spec fn meant(pattern: Seq<char>, key: Seq<char>) -> bool {
    if pattern.len() > 0 && pattern[pattern.len() - 1] == '*' {
        pattern.len() - 1 <= key.len() && forall|i: int|
            0 <= i < pattern.len() - 1 ==> #[trigger] pattern[i] == key[i]
    } else {
        pattern == key
    }
}

proof fn lemma_meant(pattern: Seq<char>, key: Seq<char>)
    ensures
        route::key_matches(pattern, key) <==> meant(pattern, key),
{
    if pattern.len() > 0 && pattern.last() == '*' {
        let prefix = pattern.drop_last();
        if prefix.is_prefix_of(key) {
            assert forall|i: int| 0 <= i < pattern.len() - 1 implies #[trigger] pattern[i]
                == key[i] by {
                assert(prefix[i] == pattern[i]);
                assert(key.take(prefix.len() as int)[i] == prefix[i]);
            }
        }
        if meant(pattern, key) {
            assert(key.take(prefix.len() as int) =~= prefix);
        }
    }
}

/// A deletion removes exactly the entries of its namespace whose keys its pattern stands
/// for, all of them without a pattern, and every other entry stays as it is.
pub proof fn deletions_remove_what_they_name(
    contents: Map<RouteView, EntryView>,
    list: Seq<(RouteView, EntryView)>,
    namespace: Seq<char>,
    pattern: Option<Seq<char>>,
    route: RouteView,
)
    requires
        memory::lists(list, contents),
    ensures
        ({
            let next = memory::after(
                contents,
                memory::removals(memory::selected(list, namespace, pattern)),
            );
            let named = route.namespace == namespace && (pattern is None || meant(
                pattern->0,
                route.key,
            ));
            &&& next.dom().contains(route) <==> contents.dom().contains(route) && !named
            &&& next.dom().contains(route) ==> next[route] == contents[route]
        }),
{
    memory::deletions_are_scoped(contents, list, namespace, pattern, route);
    if pattern is Some {
        lemma_meant(pattern->0, route.key);
    }
}

proof fn lemma_selected_entries(
    list: Seq<(RouteView, EntryView)>,
    namespace: Seq<char>,
    pattern: Seq<char>,
    entry: (RouteView, EntryView),
)
    ensures
        memory::selected(list, namespace, Some(pattern)).contains(entry) <==> list.contains(entry)
            && entry.0.namespace == namespace && meant(pattern, entry.0.key),
    decreases list.len(),
{
    let chosen = memory::selected(list, namespace, Some(pattern));
    if list.len() > 0 {
        let rest = list.drop_last();
        let before = memory::selected(rest, namespace, Some(pattern));
        lemma_selected_entries(rest, namespace, pattern, entry);
        lemma_meant(pattern, list.last().0.key);
        lemma_meant(pattern, entry.0.key);
        if chosen.contains(entry) {
            let i = choose|i: int| 0 <= i < chosen.len() && chosen[i] == entry;
            if i < before.len() {
                assert(before[i] == entry);
                assert(rest.contains(entry));
                let k = choose|k: int| 0 <= k < rest.len() && rest[k] == entry;
                assert(list[k] == entry);
            } else {
                assert(list[list.len() - 1] == entry);
            }
        }
        if list.contains(entry) && entry.0.namespace == namespace && meant(pattern, entry.0.key) {
            let k = choose|k: int| 0 <= k < list.len() && list[k] == entry;
            if k < rest.len() {
                assert(rest[k] == entry);
                assert(before.contains(entry));
                let i = choose|i: int| 0 <= i < before.len() && before[i] == entry;
                assert(chosen[i] == entry);
            } else {
                assert(chosen[chosen.len() - 1] == entry);
            }
        }
    }
}

/// A scan gives each entry of its namespace whose key the pattern stands for, by its key
/// and with its value and the time it has left, and nothing else.
pub proof fn scans_give_what_matches(
    list: Seq<(RouteView, EntryView)>,
    namespace: Seq<char>,
    pattern: Seq<char>,
    now: u128,
    entry: (RouteView, EntryView),
    i: int,
)
    ensures
        ({
            let chosen = memory::selected(list, namespace, Some(pattern));
            let given = memory::readings(chosen, now);
            &&& given.len() == chosen.len()
            &&& 0 <= i < given.len() ==> {
                &&& list.contains(chosen[i])
                &&& chosen[i].0.namespace == namespace && meant(pattern, chosen[i].0.key)
                &&& given[i].0 == chosen[i].0.key
                &&& given[i].1.value == chosen[i].1.value
                &&& given[i].1.remaining_ttl == memory::left(chosen[i].1.expires_at, now)
            }
            &&& list.contains(entry) && entry.0.namespace == namespace && meant(
                pattern,
                entry.0.key,
            ) ==> chosen.contains(entry)
        }),
{
    let chosen = memory::selected(list, namespace, Some(pattern));
    lemma_selected_entries(list, namespace, pattern, entry);
    if 0 <= i < chosen.len() {
        lemma_selected_entries(list, namespace, pattern, chosen[i]);
        assert(chosen.contains(chosen[i]));
    }
}

/// A move to a namespace that holds entries is refused, any other is not; one to itself
/// changes nothing.
pub proof fn moves_are_refused_where_something_is(
    contents: Map<RouteView, EntryView>,
    list: Seq<(RouteView, EntryView)>,
    source: Seq<char>,
    destination: Seq<char>,
    key: Seq<char>,
)
    requires
        memory::lists(list, contents),
    ensures
        source == destination ==> memory::relocation(list, source, destination) == Ok::<
            Seq<ChangeView>,
            ErrorView,
        >(Seq::empty()),
        source != destination && contents.dom().contains(RouteView { namespace: destination, key })
            ==> memory::relocation(list, source, destination) == Err::<
            Seq<ChangeView>,
            ErrorView,
        >(ErrorView::NamespaceExists(destination)),
        (forall|route: RouteView| #[trigger]
            contents.dom().contains(route) ==> route.namespace != destination)
            ==> memory::relocation(list, source, destination) is Ok,
{
    let route = RouteView { namespace: destination, key };
    let there = memory::selected(list, destination, None);
    lemma_selected_whole(list, destination);
    if contents.dom().contains(route) {
        let i = choose|i: int| 0 <= i < list.len() && (#[trigger] list[i]).0 == route;
        assert(list[i].0.namespace == destination);
    }
    if there.len() > 0 {
        assert(list.contains(there[0]));
        let k = choose|k: int| 0 <= k < list.len() && list[k] == there[0];
        assert(contents.dom().contains(list[k].0));
    }
}

proof fn lemma_selected_whole(list: Seq<(RouteView, EntryView)>, namespace: Seq<char>)
    ensures
        memory::selected(list, namespace, None).len() > 0 <==> exists|i: int|
            0 <= i < list.len() && (#[trigger] list[i]).0.namespace == namespace,
        forall|i: int|
            0 <= i < memory::selected(list, namespace, None).len() ==> list.contains(
                #[trigger] memory::selected(list, namespace, None)[i],
            ) && memory::selected(list, namespace, None)[i].0.namespace == namespace,
    decreases list.len(),
{
    if list.len() > 0 {
        let rest = list.drop_last();
        let before = memory::selected(rest, namespace, None);
        let chosen = memory::selected(list, namespace, None);
        lemma_selected_whole(rest, namespace);
        assert(list[list.len() - 1] == list.last());
        assert forall|i: int| 0 <= i < chosen.len() implies list.contains(#[trigger] chosen[i])
            && chosen[i].0.namespace == namespace by {
            if i < before.len() {
                assert(chosen[i] == before[i]);
                let k = choose|k: int| 0 <= k < rest.len() && rest[k] == before[i];
                assert(list[k] == before[i]);
            }
        }
        if before.len() > 0 {
            let i = choose|i: int|
                0 <= i < rest.len() && (#[trigger] rest[i]).0.namespace == namespace;
            assert(list[i].0.namespace == namespace);
        }
        if exists|i: int| 0 <= i < list.len() && (#[trigger] list[i]).0.namespace == namespace {
            let i = choose|i: int|
                0 <= i < list.len() && (#[trigger] list[i]).0.namespace == namespace;
            if i < rest.len() {
                assert(rest[i].0.namespace == namespace);
            }
        }
    }
}

/// The time that is left goes down with the clock: from the expiry of an entry as long as
/// it lives, to nothing once it is over; without an expiry there is no end.
pub proof fn times_run_out(at: u128, now: u128)
    ensures
        now <= at && at - now <= crate::duration::max_nanos() ==> memory::left(Some(at), now)
            == Some((at - now) as nat),
        at <= now ==> memory::left(Some(at), now) == Some(0nat),
        memory::left(None, now) is None,
{
}

/// The base namespace of a text without a double colon, or the text before the first one.
proof fn lemma_associated(base: Seq<char>, key: Seq<char>)
    requires
        route::base_of(base) == base,
        !base.contains('\n'),
    ensures
        security::associated_text(base, key) == base + seq!['\n'] + key,
{
}

/// A value is encrypted by the cipher: its JSON text under the thirty-two bytes that the
/// hexadecimal key writes, bound to the base namespace and the key of its route. The
/// envelope holds the result and the nonce as base64, with the version of the format. A
/// key of another length or with other characters is refused.
pub proof fn values_are_encrypted_by_the_cipher(
    key_hex: Seq<char>,
    namespace: Seq<char>,
    key: Seq<char>,
    value: JsonView,
    nonce: Seq<u8>,
)
    ensures
        ({
            let usable = crypto::is_hex(key_hex) && crypto::hex_bytes(key_hex).len() == 32;
            let sealed = crypto::sealed(
                crypto::hex_bytes(key_hex),
                nonce,
                vstd::utf8::encode_utf8(json::json_text(value)),
                security::associated(namespace, key),
            );
            let result = security::encrypted(key_hex, namespace, key, value, nonce);
            &&& !usable ==> (result matches Err(error) && error is Encryption)
            &&& usable && sealed is None ==> (result matches Err(error) && error is Encryption)
            &&& usable && sealed is Some ==> {
                &&& result matches Ok(envelope)
                &&& json::member(envelope, "ciphertext"@) == Some(
                    JsonView::Text(crypto::base64_text(sealed->0)),
                )
                &&& json::member(envelope, "nonce"@) == Some(
                    JsonView::Text(crypto::base64_text(nonce)),
                )
                &&& json::member(envelope, "version"@) == Some(JsonView::Number(text::decimal(1)))
            }
        }),
        route::base_of(namespace) == namespace && !namespace.contains('\n')
            ==> security::associated(namespace, key) == vstd::utf8::encode_utf8(
            namespace + seq!['\n'] + key,
        ),
{
    reveal_strlit("nonce");
    reveal_strlit("ciphertext");
    reveal_strlit("version");
    assert("nonce"@.len() == 5);
    assert("ciphertext"@.len() == 10);
    assert("version"@.len() == 7);
    if let Ok(envelope) = security::encrypted(key_hex, namespace, key, value, nonce) {
        let members = envelope->Object_0;
        reveal_with_fuel(json::member_from, 4);
        assert(members[0].0 == "ciphertext"@ && members[1].0 == "nonce"@ && members[2].0
            == "version"@);
        assert(json::member_from(members, "ciphertext"@, 0) == Some(0int));
        assert(json::member_from(members, "nonce"@, 0) == Some(1int));
        assert(json::member_from(members, "version"@, 0) == Some(2int));
    }
    if route::base_of(namespace) == namespace && !namespace.contains('\n') {
        lemma_associated(namespace, key);
    }
}

/// What an envelope holds is what the cipher opens, with the key, the nonce and the
/// ciphertext that it carries, bound to the route; an envelope that the cipher does not
/// open, of another version or without one of its parts is refused.
pub proof fn envelopes_are_opened_by_the_cipher(
    key_hex: Seq<char>,
    namespace: Seq<char>,
    key: Seq<char>,
    envelope: JsonView,
    nonce: Seq<u8>,
    ciphertext: Seq<u8>,
)
    requires
        crypto::is_hex(key_hex),
        crypto::hex_bytes(key_hex).len() == 32,
        json::member(envelope, "nonce"@) == Some(JsonView::Text(crypto::base64_text(nonce))),
        json::member(envelope, "ciphertext"@) == Some(
            JsonView::Text(crypto::base64_text(ciphertext)),
        ),
        nonce.len() == 24,
    ensures
        ({
            let current = json::member(envelope, "version"@) matches Some(version)
                && json::unsigned(version) == Some(1u64);
            let opened = crypto::opened(
                crypto::hex_bytes(key_hex),
                nonce,
                ciphertext,
                security::associated(namespace, key),
            );
            let result = security::decrypted(key_hex, namespace, key, envelope);
            &&& !current ==> (result matches Err(error) && error is Encryption)
            &&& current && opened is None ==> (result matches Err(error) && error is Encryption)
            &&& current && opened is Some && json::read_bytes(opened->0) is Some ==> result == Ok::<
                JsonView,
                ErrorView,
            >(json::read_bytes(opened->0)->0)
        }),
{
    let found_nonce = choose|found: Seq<u8>|
        crypto::base64_text(nonce) == #[trigger] crypto::base64_text(found);
    crypto::base64_is_injective(found_nonce, nonce);
    let found = choose|found: Seq<u8>|
        crypto::base64_text(ciphertext) == #[trigger] crypto::base64_text(found);
    crypto::base64_is_injective(found, ciphertext);
}

/// A time to live begins when it is set: as long as it lasts, what is left of it is the
/// time that has not passed since. One that would end behind the last moment never ends.
pub proof fn times_begin_when_they_are_set(nanos: nat, now: u128, passed: u128, latest: u128)
    requires
        now + passed <= u128::MAX,
        nanos <= crate::duration::max_nanos(),
    ensures
        now + nanos <= latest && passed <= nanos ==> memory::left(
            memory::expiry(Some(nanos), now, latest),
            (now + passed) as u128,
        ) == Some((nanos - passed) as nat),
        now + nanos > latest ==> memory::expiry(Some(nanos), now, latest) is None,
        memory::expiry(None, now, latest) is None,
{
}

} // verus!
