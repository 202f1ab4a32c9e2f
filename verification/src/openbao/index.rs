//! The index of a base namespace: a document that tells in which collection the
//! values of each context are. Moving a context changes the index and nothing else.

use crate::json::{self, JsonView, Value};
use crate::openbao::client::{Versioned, VersionedView};
use crate::openbao::error::{configuration, AdapterError, AdapterErrorView};
use crate::text;
use vstd::prelude::*;

verus! {

/// The collection of a context.
pub open spec fn collection_in(index: JsonView, context: Seq<char>) -> Option<Seq<char>> {
    match json::member(index, "contexts"@) {
        Some(contexts) => match json::member(contexts, context) {
            Some(JsonView::Text(collection)) => Some(collection),
            _ => None,
        },
        None => None,
    }
}

/// The collection of a context.
pub fn collection_of(index: &Value, context: &str) -> (r: Option<String>)
    ensures
        match r {
            Some(collection) => collection_in(index@, context@) == Some(collection@),
            None => collection_in(index@, context@) is None,
        },
{
    match index.get("contexts") {
        Some(contexts) => match contexts.get(context) {
            Some(value) => match value.as_str() {
                Some(collection) => Some(collection.to_owned()),
                None => None,
            },
            None => None,
        },
        None => None,
    }
}

/// Where a key belongs among members in ascending order.
pub open spec fn place(members: Seq<(Seq<char>, JsonView)>, key: Seq<char>, i: int) -> int
    decreases members.len() - i,
{
    if i < 0 || i >= members.len() {
        members.len() as int
    } else if text::before(key, members[i].0) {
        i
    } else {
        place(members, key, i + 1)
    }
}

/// Members with one more.
pub open spec fn with_member(
    members: Seq<(Seq<char>, JsonView)>,
    key: Seq<char>,
    value: JsonView,
) -> Seq<(Seq<char>, JsonView)> {
    members.insert(place(members, key, 0), (key, value))
}

/// An index with other contexts.
pub open spec fn with_contexts(
    members: Seq<(Seq<char>, JsonView)>,
    position: int,
    contexts: Seq<(Seq<char>, JsonView)>,
) -> JsonView {
    JsonView::Object(members.update(position, (members[position].0, JsonView::Object(contexts))))
}

/// An index without contexts.
pub open spec fn empty_index() -> JsonView {
    JsonView::Object(seq![("contexts"@, JsonView::Object(Seq::empty()))])
}

/// The members of an index, where its contexts stand among them, and the contexts.
pub open spec fn contexts_of(index: JsonView) -> Option<
    (Seq<(Seq<char>, JsonView)>, int, Seq<(Seq<char>, JsonView)>),
> {
    match index {
        JsonView::Object(members) => match json::member_from(members, "contexts"@, 0) {
            Some(i) => match members[i].1 {
                JsonView::Object(contexts) => Some((members, i, contexts)),
                _ => None,
            },
            None => None,
        },
        _ => None,
    }
}

/// What gives a context a collection: the index to write over a version, and the
/// collection, which is `fresh` where the context has none yet.
pub open spec fn claim(
    index: Option<VersionedView>,
    context: Seq<char>,
    fresh: Seq<char>,
) -> Result<(JsonView, u64, Seq<char>), AdapterErrorView> {
    let current = match index {
        Some(index) => index,
        None => VersionedView { value: empty_index(), version: 0 },
    };
    match contexts_of(current.value) {
        None => Err(AdapterErrorView::Configuration("OpenBao index was malformed"@)),
        Some((members, i, contexts)) => match json::member_from(contexts, context, 0) {
            Some(k) => match contexts[k].1 {
                JsonView::Text(collection) => Ok((current.value, current.version, collection)),
                _ => Err(
                    AdapterErrorView::Configuration(
                        "OpenBao index contained a non-string collection id"@,
                    ),
                ),
            },
            None => Ok(
                (
                    with_contexts(
                        members,
                        i,
                        with_member(contexts, context, JsonView::Text(fresh)),
                    ),
                    current.version,
                    fresh,
                ),
            ),
        },
    }
}

/// What moves a context: the index to write, or nothing where the context is not
/// there.
pub open spec fn relocation(index: JsonView, source: Seq<char>, destination: Seq<char>) -> Result<
    Option<JsonView>,
    AdapterErrorView,
> {
    match contexts_of(index) {
        None => Err(AdapterErrorView::Configuration("OpenBao index was malformed"@)),
        Some((members, i, contexts)) => match json::member_from(contexts, source, 0) {
            None => Ok(None),
            Some(k) => {
                let left = contexts.remove(k);
                if json::member_from(left, destination, 0) is Some {
                    Err(AdapterErrorView::NamespaceExists)
                } else {
                    Ok(
                        Some(
                            with_contexts(
                                members,
                                i,
                                with_member(left, destination, contexts[k].1),
                            ),
                        ),
                    )
                }
            },
        },
    }
}

fn find(members: &Vec<(String, Value)>, key: &str) -> (r: Option<usize>)
    ensures
        match r {
            Some(i) => i < members.len() && json::member_from(
                json::members_view(members@),
                key@,
                0,
            ) == Some(i as int),
            None => json::member_from(json::members_view(members@), key@, 0) is None,
        },
{
    let ghost all = json::members_view(members@);
    let mut i: usize = 0;
    while i < members.len()
        invariant
            i <= members.len(),
            all == json::members_view(members@),
            json::member_from(all, key@, 0) == json::member_from(all, key@, i as int),
        decreases members.len() - i,
    {
        assert(all[i as int].0 == members@[i as int].0@);
        if text::same(members[i].0.as_str(), key) {
            return Some(i);
        }
        i += 1;
    }
    None
}

fn place_of(members: &Vec<(String, Value)>, key: &str) -> (r: usize)
    ensures
        r == place(json::members_view(members@), key@, 0),
        r <= members.len(),
{
    let ghost all = json::members_view(members@);
    let mut i: usize = 0;
    while i < members.len()
        invariant
            i <= members.len(),
            all == json::members_view(members@),
            place(all, key@, 0) == place(all, key@, i as int),
        decreases members.len() - i,
    {
        assert(all[i as int].0 == members@[i as int].0@);
        if text::comes_before(key, members[i].0.as_str()) {
            return i;
        }
        i += 1;
    }
    i
}

fn add_member(members: &mut Vec<(String, Value)>, key: &str, value: Value)
    ensures
        json::members_view(final(members)@) == with_member(
            json::members_view(old(members)@),
            key@,
            value@,
        ),
{
    let ghost before = members@;
    let at = place_of(members, key);
    let member = (key.to_owned(), value);
    members.insert(at, member);
    proof {
        assert(members@ =~= before.insert(at as int, member));
        assert(json::members_view(members@) =~= json::members_view(before).insert(
            at as int,
            (key@, value@),
        ));
    }
}

/// The members of an index before its contexts, the contexts, and the members after
/// them.
struct Opened {
    members: Vec<(String, Value)>,
    position: usize,
    contexts: Vec<(String, Value)>,
}

fn open(index: &Value) -> (r: Option<Opened>)
    ensures
        match r {
            Some(opened) => opened.position < opened.members.len() && contexts_of(index@) == Some(
                (
                    json::members_view(opened.members@),
                    opened.position as int,
                    json::members_view(opened.contexts@),
                ),
            ),
            None => contexts_of(index@) is None,
        },
{
    let copy = index.clone();
    let members = match copy {
        Value::Object(members) => members,
        _ => {
            return None;
        },
    };
    proof {
        json::lemma_object_view(members);
    }
    let position = match find(&members, "contexts") {
        Some(position) => position,
        None => {
            return None;
        },
    };
    assert(json::members_view(members@)[position as int].1 == members@[position as int].1@);
    let contexts = members[position].1.clone();
    match contexts {
        Value::Object(contexts) => {
            proof {
                json::lemma_object_view(contexts);
            }
            Some(Opened { members, position, contexts })
        },
        _ => None,
    }
}

fn close(opened: Opened) -> (r: Value)
    requires
        opened.position < opened.members.len(),
    ensures
        r@ == with_contexts(
            json::members_view(opened.members@),
            opened.position as int,
            json::members_view(opened.contexts@),
        ),
{
    let mut members = opened.members;
    let ghost before = members@;
    proof {
        json::lemma_object_view(opened.contexts);
    }
    let name = members[opened.position].0.clone();
    let member = (name, Value::Object(opened.contexts));
    members[opened.position] = member;
    proof {
        json::lemma_object_view(members);
        assert(json::members_view(members@) =~= json::members_view(before).update(
            opened.position as int,
            (before[opened.position as int].0@, member.1@),
        ));
    }
    Value::Object(members)
}

/// What gives a context a collection.
#[derive(Debug)]
pub struct Claim {
    pub index: Value,
    pub version: u64,
    pub collection: String,
}

/// What gives a context a collection. `fresh` is the collection of a context that
/// has none.
pub fn claim_context(index: Option<Versioned>, context: &str, fresh: &str) -> (r: Result<
    Claim,
    AdapterError,
>)
    ensures
        match r {
            Ok(made) => claim(crate::error::inner(index), context@, fresh@) == Ok::<
                (JsonView, u64, Seq<char>),
                AdapterErrorView,
            >((made.index@, made.version, made.collection@)),
            Err(error) => claim(crate::error::inner(index), context@, fresh@) == Err::<
                (JsonView, u64, Seq<char>),
                AdapterErrorView,
            >(error@),
        },
{
    let current = match index {
        Some(index) => index,
        None => {
            let none: Vec<(String, Value)> = Vec::new();
            proof {
                json::lemma_object_view(none);
                assert(json::members_view(none@) =~= Seq::<(Seq<char>, JsonView)>::empty());
            }
            let mut members: Vec<(String, Value)> = Vec::new();
            members.push(("contexts".to_owned(), Value::Object(none)));
            proof {
                json::lemma_object_view(members);
                assert(json::members_view(members@) =~= seq![
                    ("contexts"@, JsonView::Object(Seq::empty())),
                ]);
            }
            Versioned { value: Value::Object(members), version: 0 }
        },
    };
    let mut opened = match open(&current.value) {
        Some(opened) => opened,
        None => {
            return Err(configuration("OpenBao index was malformed"));
        },
    };
    match find(&opened.contexts, context) {
        Some(k) => {
            assert(json::members_view(opened.contexts@)[k as int].1
                == opened.contexts@[k as int].1@);
            match opened.contexts[k].1.as_str() {
                Some(collection) => Ok(
                    Claim {
                        collection: collection.to_owned(),
                        version: current.version,
                        index: current.value,
                    },
                ),
                None => Err(configuration("OpenBao index contained a non-string collection id")),
            }
        },
        None => {
            add_member(&mut opened.contexts, context, Value::Text(fresh.to_owned()));
            Ok(
                Claim {
                    index: close(opened),
                    version: current.version,
                    collection: fresh.to_owned(),
                },
            )
        },
    }
}

/// What moves a context: the index to write, or nothing where the context is not
/// there.
pub fn move_entry(index: &Value, source: &str, destination: &str) -> (r: Result<
    Option<Value>,
    AdapterError,
>)
    ensures
        match r {
            Ok(moved) => relocation(index@, source@, destination@) == Ok::<
                Option<JsonView>,
                AdapterErrorView,
            >(crate::error::inner(moved)),
            Err(error) => relocation(index@, source@, destination@) == Err::<
                Option<JsonView>,
                AdapterErrorView,
            >(error@),
        },
{
    let mut opened = match open(index) {
        Some(opened) => opened,
        None => {
            return Err(configuration("OpenBao index was malformed"));
        },
    };
    let k = match find(&opened.contexts, source) {
        Some(k) => k,
        None => {
            return Ok(None);
        },
    };
    let ghost before = opened.contexts@;
    let (_name, collection) = opened.contexts.remove(k);
    assert(json::members_view(opened.contexts@) =~= json::members_view(before).remove(k as int));
    assert(json::members_view(before)[k as int].1 == collection@);
    if find(&opened.contexts, destination).is_some() {
        return Err(AdapterError::NamespaceExists);
    }
    add_member(&mut opened.contexts, destination, collection);
    Ok(Some(close(opened)))
}

/// Members are under different keys.
pub open spec fn distinct(members: Seq<(Seq<char>, JsonView)>) -> bool {
    forall|i: int, j: int|
        0 <= i < members.len() && 0 <= j < members.len() && (#[trigger] members[i]).0 == (
        #[trigger] members[j]).0 ==> i == j
}

proof fn lemma_member_from(members: Seq<(Seq<char>, JsonView)>, key: Seq<char>, i: int)
    requires
        0 <= i <= members.len(),
    ensures
        match json::member_from(members, key, i) {
            Some(k) => i <= k < members.len() && members[k].0 == key,
            None => forall|k: int| i <= k < members.len() ==> (#[trigger] members[k]).0 != key,
        },
    decreases members.len() - i,
{
    if i < members.len() && members[i].0 != key {
        lemma_member_from(members, key, i + 1);
    }
}

proof fn lemma_member_at(members: Seq<(Seq<char>, JsonView)>, k: int)
    requires
        distinct(members),
        0 <= k < members.len(),
    ensures
        json::member_from(members, members[k].0, 0) == Some(k),
{
    lemma_member_from(members, members[k].0, 0);
}

proof fn lemma_place(members: Seq<(Seq<char>, JsonView)>, key: Seq<char>, i: int)
    requires
        0 <= i <= members.len(),
    ensures
        i <= place(members, key, i) <= members.len(),
    decreases members.len() - i,
{
    if i < members.len() && !text::before(key, members[i].0) {
        lemma_place(members, key, i + 1);
    }
}

proof fn lemma_added(
    members: Seq<(Seq<char>, JsonView)>,
    key: Seq<char>,
    value: JsonView,
    other: Seq<char>,
)
    requires
        distinct(members),
        json::member_from(members, key, 0) is None,
    ensures
        json::member(JsonView::Object(with_member(members, key, value)), other) == (if other
            == key {
            Some(value)
        } else {
            json::member(JsonView::Object(members), other)
        }),
        distinct(with_member(members, key, value)),
{
    let at = place(members, key, 0);
    let all = with_member(members, key, value);
    lemma_place(members, key, 0);
    lemma_member_from(members, key, 0);
    assert forall|i: int, j: int|
        0 <= i < all.len() && 0 <= j < all.len() && (#[trigger] all[i]).0 == (
        #[trigger] all[j]).0 implies i == j by {
        let a = if i < at {
            i
        } else {
            i - 1
        };
        let b = if j < at {
            j
        } else {
            j - 1
        };
        if i != at {
            assert(all[i] == members[a]);
        }
        if j != at {
            assert(all[j] == members[b]);
        }
    }
    assert(all[at] == (key, value));
    if other == key {
        lemma_member_at(all, at);
    } else {
        lemma_member_from(members, other, 0);
        lemma_member_from(all, other, 0);
        if let Some(k) = json::member_from(members, other, 0) {
            let moved = if k < at {
                k
            } else {
                k + 1
            };
            assert(all[moved] == members[k]);
            lemma_member_at(all, moved);
        } else if let Some(k) = json::member_from(all, other, 0) {
            let moved = if k < at {
                k
            } else {
                k - 1
            };
            assert(all[k] == members[moved]);
        }
    }
}

proof fn lemma_removed(members: Seq<(Seq<char>, JsonView)>, k: int, other: Seq<char>)
    requires
        distinct(members),
        0 <= k < members.len(),
    ensures
        json::member(JsonView::Object(members.remove(k)), other) == (if other == members[k].0 {
            None
        } else {
            json::member(JsonView::Object(members), other)
        }),
        distinct(members.remove(k)),
{
    let left = members.remove(k);
    assert forall|i: int, j: int|
        0 <= i < left.len() && 0 <= j < left.len() && (#[trigger] left[i]).0 == (
        #[trigger] left[j]).0 implies i == j by {
        let a = if i < k {
            i
        } else {
            i + 1
        };
        let b = if j < k {
            j
        } else {
            j + 1
        };
        assert(left[i] == members[a]);
        assert(left[j] == members[b]);
    }
    lemma_member_from(left, other, 0);
    lemma_member_from(members, other, 0);
    if let Some(i) = json::member_from(left, other, 0) {
        let a = if i < k {
            i
        } else {
            i + 1
        };
        assert(left[i] == members[a]);
        lemma_member_at(members, a);
    } else if let Some(i) = json::member_from(members, other, 0) {
        if i != k {
            let a = if i < k {
                i
            } else {
                i - 1
            };
            assert(left[a] == members[i]);
        }
    }
}

proof fn lemma_with_contexts(
    members: Seq<(Seq<char>, JsonView)>,
    contexts: Seq<(Seq<char>, JsonView)>,
)
    requires
        json::member_from(members, "contexts"@, 0) is Some,
    ensures
        json::member(
            with_contexts(members, json::member_from(members, "contexts"@, 0)->0, contexts),
            "contexts"@,
        ) == Some(JsonView::Object(contexts)),
{
    let i = json::member_from(members, "contexts"@, 0)->0;
    lemma_member_from(members, "contexts"@, 0);
    let all = members.update(i, (members[i].0, JsonView::Object(contexts)));
    lemma_first(members, "contexts"@, 0, i);
    lemma_first_kept(members, all, "contexts"@, 0, i);
}

proof fn lemma_first(members: Seq<(Seq<char>, JsonView)>, key: Seq<char>, i: int, k: int)
    requires
        0 <= i <= members.len(),
        json::member_from(members, key, i) == Some(k),
    ensures
        i <= k < members.len(),
        members[k].0 == key,
        forall|j: int| i <= j < k ==> (#[trigger] members[j]).0 != key,
    decreases members.len() - i,
{
    if members[i].0 != key {
        lemma_first(members, key, i + 1, k);
    }
}

proof fn lemma_first_kept(
    members: Seq<(Seq<char>, JsonView)>,
    all: Seq<(Seq<char>, JsonView)>,
    key: Seq<char>,
    i: int,
    k: int,
)
    requires
        all.len() == members.len(),
        0 <= i <= k < all.len(),
        forall|j: int| 0 <= j < all.len() ==> (#[trigger] all[j]).0 == members[j].0,
        members[k].0 == key,
        forall|j: int| i <= j < k ==> (#[trigger] members[j]).0 != key,
    ensures
        json::member_from(all, key, i) == Some(k),
    decreases k - i,
{
    assert(all[i].0 == members[i].0);
    if i < k {
        lemma_first_kept(members, all, key, i + 1, k);
    }
}

/// A context that is moved keeps its collection, and with it its values: they are
/// found under the new context, no longer under the old one, and every other context
/// is where it was.
pub proof fn moves_carry_the_collection(
    index: JsonView,
    source: Seq<char>,
    destination: Seq<char>,
    other: Seq<char>,
)
    requires
        contexts_of(index) matches Some((_, _, contexts)) && distinct(contexts),
        relocation(index, source, destination) matches Ok(Some(_)),
        source != destination,
    ensures
        ({
            let moved = relocation(index, source, destination)->Ok_0->0;
            &&& collection_in(moved, destination) == collection_in(index, source)
            &&& collection_in(moved, source) is None
            &&& other != source && other != destination ==> collection_in(moved, other)
                == collection_in(index, other)
        }),
{
    let (members, i, contexts) = contexts_of(index)->0;
    let k = json::member_from(contexts, source, 0)->0;
    lemma_member_from(contexts, source, 0);
    let left = contexts.remove(k);
    lemma_removed(contexts, k, source);
    lemma_removed(contexts, k, other);
    lemma_added(left, destination, contexts[k].1, destination);
    lemma_added(left, destination, contexts[k].1, source);
    lemma_added(left, destination, contexts[k].1, other);
    lemma_with_contexts(members, with_member(left, destination, contexts[k].1));
}

/// A context that was given a collection is found in it, and every other context is
/// where it was.
pub proof fn claims_are_found(
    index: VersionedView,
    context: Seq<char>,
    fresh: Seq<char>,
    other: Seq<char>,
)
    requires
        contexts_of(index.value) matches Some((_, _, contexts)) && distinct(contexts),
        claim(Some(index), context, fresh) is Ok,
    ensures
        ({
            let (next, version, collection) = claim(Some(index), context, fresh)->Ok_0;
            &&& version == index.version
            &&& collection_in(next, context) == Some(collection)
            &&& other != context ==> collection_in(next, other) == collection_in(
                index.value,
                other,
            )
            &&& collection_in(index.value, context) is Some ==> next == index.value
        }),
{
    let (members, i, contexts) = contexts_of(index.value)->0;
    if json::member_from(contexts, context, 0) is None {
        lemma_added(contexts, context, JsonView::Text(fresh), context);
        lemma_added(contexts, context, JsonView::Text(fresh), other);
        lemma_with_contexts(members, with_member(contexts, context, JsonView::Text(fresh)));
    }
}

} // verus!
