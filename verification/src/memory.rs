//! The rules of the in-memory store: when its entries expire, and what its
//! operations on whole namespaces do to them.
//!
//! The cache itself is around this module. It lists its entries, and carries out
//! the changes that come back. Instants are nanoseconds of a clock that only goes
//! forward.

use crate::duration::Duration;
use crate::error::{Error, ErrorView};
use crate::json::{JsonView, Value};
use crate::protocol::SetEntry;
use crate::route::{self, Key, KeyPattern, NamespaceContext, RouteView};
use crate::store::{StoredValue, StoredView};
use crate::text;
use vstd::prelude::*;

verus! {

/// Runtime policy for the in-memory store.
#[derive(Clone, Copy, Debug)]
pub struct MemoryStoreConfig {
    /// Maximum number of entries that are kept. `None` means unbounded.
    pub max_capacity: Option<u64>,
    /// Time after which an entry that is not used is dropped. The times to live of
    /// commands remain independent.
    pub time_to_idle: Option<Duration>,
}

impl MemoryStoreConfig {
    /// No limits.
    pub fn new() -> (r: Self)
        ensures
            r == (MemoryStoreConfig { max_capacity: None, time_to_idle: None }),
    {
        MemoryStoreConfig { max_capacity: None, time_to_idle: None }
    }

    pub fn with_max_capacity(self, max_capacity: u64) -> (r: Self)
        ensures
            r == (MemoryStoreConfig { max_capacity: Some(max_capacity), ..self }),
    {
        MemoryStoreConfig { max_capacity: Some(max_capacity), time_to_idle: self.time_to_idle }
    }

    pub fn with_time_to_idle(self, time_to_idle: Duration) -> (r: Self)
        ensures
            r == (MemoryStoreConfig { time_to_idle: Some(time_to_idle), ..self }),
    {
        MemoryStoreConfig { max_capacity: self.max_capacity, time_to_idle: Some(time_to_idle) }
    }
}

impl Default for MemoryStoreConfig {
    fn default() -> (r: Self)
        ensures
            r == (MemoryStoreConfig { max_capacity: None, time_to_idle: None }),
    {
        MemoryStoreConfig::new()
    }
}

/// A value of the cache, and when it expires.
#[derive(Debug)]
pub struct CacheEntry {
    pub value: Value,
    pub expires_at: Option<u128>,
}

/// A [`CacheEntry`] as a mathematical value.
#[verifier::ext_equal]
pub struct EntryView {
    pub value: JsonView,
    pub expires_at: Option<u128>,
}

impl View for CacheEntry {
    type V = EntryView;

    open spec fn view(&self) -> EntryView {
        EntryView { value: self.value@, expires_at: self.expires_at }
    }
}

impl Clone for CacheEntry {
    fn clone(&self) -> (r: Self)
        ensures
            r@ == self@,
    {
        CacheEntry { value: self.value.clone(), expires_at: self.expires_at }
    }
}

/// The time from an instant to an expiry: none where it is over, and at most the
/// longest time that there is.
pub open spec fn left(expires_at: Option<u128>, now: u128) -> Option<nat> {
    match expires_at {
        Some(at) => Some(
            if at < now {
                0
            } else if at - now > crate::duration::max_nanos() {
                crate::duration::max_nanos()
            } else {
                (at - now) as nat
            },
        ),
        None => None,
    }
}

/// When an entry that is written now expires; one that would outlast the clock,
/// which ends at `latest`, does not.
pub open spec fn expiry(ttl: Option<nat>, now: u128, latest: u128) -> Option<u128> {
    match ttl {
        Some(nanos) => if now + nanos <= latest {
            Some((now + nanos) as u128)
        } else {
            None
        },
        None => None,
    }
}

/// When an entry that is written now expires. `latest` is the last instant of the
/// clock.
pub fn expires_at(ttl: Option<Duration>, now: u128, latest: u128) -> (r: Option<u128>)
    ensures
        r == expiry(crate::error::inner(ttl), now, latest),
{
    match ttl {
        Some(ttl) => match now.checked_add(ttl.as_nanos()) {
            Some(at) => if at <= latest {
                Some(at)
            } else {
                None
            },
            None => None,
        },
        None => None,
    }
}

/// The time from an instant to an expiry.
pub fn remaining(expires_at: Option<u128>, now: u128) -> (r: Option<Duration>)
    ensures
        crate::error::inner(r) == left(expires_at, now),
{
    match expires_at {
        Some(at) => match Duration::checked_nanos(at.saturating_sub(now)) {
            Some(duration) => Some(duration),
            None => Some(Duration::longest()),
        },
        None => None,
    }
}

/// How long the cache keeps its entries.
#[derive(Clone, Copy, Debug)]
pub struct EntryExpiry;

impl EntryExpiry {
    /// An entry that is created is kept until it expires.
    pub fn expire_after_create(&self, value: &CacheEntry, created_at: u128) -> (r: Option<Duration>)
        ensures
            crate::error::inner(r) == left(value.expires_at, created_at),
    {
        remaining(value.expires_at, created_at)
    }

    /// Reading an entry does not change how long it is kept.
    pub fn expire_after_read(
        &self,
        _value: &CacheEntry,
        duration_until_expiry: Option<Duration>,
    ) -> (r: Option<Duration>)
        ensures
            r == duration_until_expiry,
    {
        duration_until_expiry
    }

    /// An entry that is overwritten is kept as the new one says.
    pub fn expire_after_update(&self, value: &CacheEntry, updated_at: u128) -> (r: Option<Duration>)
        ensures
            crate::error::inner(r) == left(value.expires_at, updated_at),
    {
        remaining(value.expires_at, updated_at)
    }
}

/// What is read of an entry.
pub open spec fn stored(entry: EntryView, now: u128) -> StoredView {
    StoredView { value: entry.value, remaining_ttl: left(entry.expires_at, now) }
}

/// What is read of an entry.
pub fn stored_value(entry: &CacheEntry, now: u128) -> (r: StoredValue)
    ensures
        r@ == stored(entry@, now),
{
    StoredValue { value: entry.value.clone(), remaining_ttl: remaining(entry.expires_at, now) }
}

/// An entry of the cache, with its route.
#[derive(Debug)]
pub struct Listed {
    pub namespace: NamespaceContext,
    pub key: Key,
    pub entry: CacheEntry,
}

impl View for Listed {
    type V = (RouteView, EntryView);

    open spec fn view(&self) -> (RouteView, EntryView) {
        (RouteView { namespace: self.namespace@, key: self.key@ }, self.entry@)
    }
}

/// A change of the cache.
#[derive(Debug)]
pub enum Change {
    Insert { namespace: NamespaceContext, key: Key, entry: CacheEntry },
    Remove { namespace: NamespaceContext, key: Key },
}

/// A [`Change`] as a mathematical value.
#[verifier::ext_equal]
pub enum ChangeView {
    Insert { route: RouteView, entry: EntryView },
    Remove { route: RouteView },
}

impl View for Change {
    type V = ChangeView;

    open spec fn view(&self) -> ChangeView {
        match self {
            Change::Insert { namespace, key, entry } => ChangeView::Insert {
                route: RouteView { namespace: namespace@, key: key@ },
                entry: entry@,
            },
            Change::Remove { namespace, key } => ChangeView::Remove {
                route: RouteView { namespace: namespace@, key: key@ },
            },
        }
    }
}

/// The contents after a change.
pub open spec fn changed(
    contents: Map<RouteView, EntryView>,
    change: ChangeView,
) -> Map<RouteView, EntryView> {
    match change {
        ChangeView::Insert { route, entry } => contents.insert(route, entry),
        ChangeView::Remove { route } => contents.remove(route),
    }
}

/// The contents after changes, in order.
pub open spec fn after(
    contents: Map<RouteView, EntryView>,
    changes: Seq<ChangeView>,
) -> Map<RouteView, EntryView>
    decreases changes.len(),
{
    if changes.len() == 0 {
        contents
    } else {
        changed(after(contents, changes.drop_last()), changes.last())
    }
}

/// A list holds every entry of the contents, once.
pub open spec fn lists(
    list: Seq<(RouteView, EntryView)>,
    contents: Map<RouteView, EntryView>,
) -> bool {
    &&& forall|i: int|
        0 <= i < list.len() ==> contents.dom().contains((#[trigger] list[i]).0)
            && contents[list[i].0] == list[i].1
    &&& forall|route: RouteView| #[trigger]
        contents.dom().contains(route) ==> exists|i: int|
            0 <= i < list.len() && (#[trigger] list[i]).0 == route
    &&& forall|i: int, j: int|
        0 <= i < list.len() && 0 <= j < list.len() && (#[trigger] list[i]).0 == (
        #[trigger] list[j]).0 ==> i == j
}

/// A route is in a namespace, and its key is one that the pattern stands for.
pub open spec fn picked(
    route: RouteView,
    namespace: Seq<char>,
    pattern: Option<Seq<char>>,
) -> bool {
    route.namespace == namespace && (pattern is None || route::key_matches(pattern->0, route.key))
}

/// The entries of a namespace whose keys the pattern stands for, in order.
pub open spec fn selected(
    list: Seq<(RouteView, EntryView)>,
    namespace: Seq<char>,
    pattern: Option<Seq<char>>,
) -> Seq<(RouteView, EntryView)>
    decreases list.len(),
{
    if list.len() == 0 {
        Seq::empty()
    } else {
        let before = selected(list.drop_last(), namespace, pattern);
        if picked(list.last().0, namespace, pattern) {
            before.push(list.last())
        } else {
            before
        }
    }
}

/// The changes that remove entries.
pub open spec fn removals(list: Seq<(RouteView, EntryView)>) -> Seq<ChangeView> {
    Seq::new(list.len(), |i: int| ChangeView::Remove { route: list[i].0 })
}

/// The changes that insert entries under another namespace.
pub open spec fn arrivals(
    list: Seq<(RouteView, EntryView)>,
    destination: Seq<char>,
) -> Seq<ChangeView> {
    Seq::new(
        list.len(),
        |i: int|
            ChangeView::Insert {
                route: RouteView { namespace: destination, key: list[i].0.key },
                entry: list[i].1,
            },
    )
}

/// The changes that move a namespace, where they may be made.
pub open spec fn relocation(
    list: Seq<(RouteView, EntryView)>,
    source: Seq<char>,
    destination: Seq<char>,
) -> Result<Seq<ChangeView>, ErrorView> {
    if source == destination {
        Ok(Seq::empty())
    } else if selected(list, destination, None).len() > 0 {
        Err(ErrorView::NamespaceExists(destination))
    } else {
        let leaving = selected(list, source, None);
        Ok(arrivals(leaving, destination) + removals(leaving))
    }
}

/// What is read of entries.
pub open spec fn readings(list: Seq<(RouteView, EntryView)>, now: u128) -> Seq<
    (Seq<char>, StoredView),
> {
    Seq::new(list.len(), |i: int| (list[i].0.key, stored(list[i].1, now)))
}

/// The views of keys with what is read of them.
pub open spec fn reading_views(list: Seq<(Key, StoredValue)>) -> Seq<(Seq<char>, StoredView)> {
    Seq::new(list.len(), |i: int| (list[i].0@, list[i].1@))
}

fn is_picked(listed: &Listed, namespace: &NamespaceContext, pattern: Option<&KeyPattern>) -> (r: bool)
    ensures
        r == picked(
            listed@.0,
            namespace@,
            match pattern {
                Some(pattern) => Some(pattern@),
                None => None,
            },
        ),
{
    if !text::same(listed.namespace.as_str(), namespace.as_str()) {
        return false;
    }
    match pattern {
        Some(pattern) => pattern.matches(&listed.key),
        None => true,
    }
}

/// The view of an optional pattern.
pub open spec fn pattern_view(pattern: Option<&KeyPattern>) -> Option<Seq<char>> {
    match pattern {
        Some(pattern) => Some(pattern@),
        None => None,
    }
}

/// The change that writes a value.
pub fn set(
    namespace: NamespaceContext,
    key: Key,
    value: Value,
    ttl: Option<Duration>,
    now: u128,
    latest: u128,
) -> (r: Change)
    ensures
        r@ == (ChangeView::Insert {
            route: RouteView { namespace: namespace@, key: key@ },
            entry: EntryView {
                value: value@,
                expires_at: expiry(crate::error::inner(ttl), now, latest),
            },
        }),
{
    let expires_at = expires_at(ttl, now, latest);
    Change::Insert { namespace, key, entry: CacheEntry { value, expires_at } }
}

/// The changes that write the values of a batch.
pub open spec fn insertions(
    namespace: Seq<char>,
    entries: Seq<(Seq<char>, JsonView)>,
    expires_at: Option<u128>,
) -> Seq<ChangeView> {
    Seq::new(
        entries.len(),
        |i: int|
            ChangeView::Insert {
                route: RouteView { namespace, key: entries[i].0 },
                entry: EntryView { value: entries[i].1, expires_at },
            },
    )
}

/// The changes that write several values, which expire together.
pub fn set_batch(
    namespace: &NamespaceContext,
    entries: &Vec<SetEntry>,
    ttl: Option<Duration>,
    now: u128,
    latest: u128,
) -> (r: Vec<Change>)
    ensures
        crate::error::views(r@) == insertions(
            namespace@,
            crate::error::views(entries@),
            expiry(crate::error::inner(ttl), now, latest),
        ),
{
    let expires_at = expires_at(ttl, now, latest);
    let mut out: Vec<Change> = Vec::new();
    let mut i: usize = 0;
    while i < entries.len()
        invariant
            i <= entries.len(),
            out.len() == i,
            expires_at == expiry(crate::error::inner(ttl), now, latest),
            forall|k: int|
                0 <= k < i ==> (#[trigger] out@[k])@ == (ChangeView::Insert {
                    route: RouteView { namespace: namespace@, key: entries@[k].key@ },
                    entry: EntryView { value: entries@[k].value@, expires_at },
                }),
        decreases entries.len() - i,
    {
        out.push(
            Change::Insert {
                namespace: namespace.clone(),
                key: entries[i].key.clone(),
                entry: CacheEntry { value: entries[i].value.clone(), expires_at },
            },
        );
        i += 1;
    }
    out
}

/// The changes that delete the entries of a namespace whose keys the pattern
/// stands for, or all of them.
pub fn delete(
    list: &Vec<Listed>,
    namespace: &NamespaceContext,
    pattern: Option<&KeyPattern>,
) -> (r: Vec<Change>)
    ensures
        crate::error::views(r@) == removals(
            selected(crate::error::views(list@), namespace@, pattern_view(pattern)),
        ),
{
    let ghost all = crate::error::views(list@);
    let ghost wanted = pattern_view(pattern);
    let mut out: Vec<Change> = Vec::new();
    let mut i: usize = 0;
    assert(all.take(0) =~= Seq::empty());
    assert(crate::error::views(out@) =~= removals(selected(all.take(0), namespace@, wanted)));
    while i < list.len()
        invariant
            i <= list.len(),
            all == crate::error::views(list@),
            wanted == pattern_view(pattern),
            crate::error::views(out@) == removals(
                selected(all.take(i as int), namespace@, wanted),
            ),
        decreases list.len() - i,
    {
        let ghost before = crate::error::views(out@);
        let ghost chosen = selected(all.take(i as int), namespace@, wanted);
        proof {
            assert(all.take(i + 1).drop_last() =~= all.take(i as int));
            assert(all.take(i + 1).last() == list@[i as int]@);
        }
        if is_picked(&list[i], namespace, pattern) {
            let change = Change::Remove {
                namespace: list[i].namespace.clone(),
                key: list[i].key.clone(),
            };
            out.push(change);
            assert(crate::error::views(out@) =~= before.push(change@));
            assert(removals(chosen.push(list@[i as int]@)) =~= before.push(change@));
        }
        i += 1;
    }
    assert(all.take(list.len() as int) =~= all);
    out
}

/// What is read of the entries of a namespace whose keys the pattern stands for.
pub fn scan(list: &Vec<Listed>, namespace: &NamespaceContext, pattern: &KeyPattern, now: u128) -> (r:
    Vec<(Key, StoredValue)>)
    ensures
        reading_views(r@) == readings(
            selected(crate::error::views(list@), namespace@, Some(pattern@)),
            now,
        ),
{
    let ghost all = crate::error::views(list@);
    let mut out: Vec<(Key, StoredValue)> = Vec::new();
    let mut i: usize = 0;
    assert(all.take(0) =~= Seq::empty());
    assert(reading_views(out@) =~= readings(
        selected(all.take(0), namespace@, Some(pattern@)),
        now,
    ));
    while i < list.len()
        invariant
            i <= list.len(),
            all == crate::error::views(list@),
            reading_views(out@) == readings(
                selected(all.take(i as int), namespace@, Some(pattern@)),
                now,
            ),
        decreases list.len() - i,
    {
        let ghost before = reading_views(out@);
        let ghost chosen = selected(all.take(i as int), namespace@, Some(pattern@));
        proof {
            assert(all.take(i + 1).drop_last() =~= all.take(i as int));
            assert(all.take(i + 1).last() == list@[i as int]@);
        }
        if is_picked(&list[i], namespace, Some(pattern)) {
            let reading = (list[i].key.clone(), stored_value(&list[i].entry, now));
            out.push(reading);
            assert(reading_views(out@) =~= before.push((reading.0@, reading.1@)));
            assert(readings(chosen.push(list@[i as int]@), now) =~= before.push(
                (reading.0@, reading.1@),
            ));
        }
        i += 1;
    }
    assert(all.take(list.len() as int) =~= all);
    out
}

fn any_in(list: &Vec<Listed>, namespace: &NamespaceContext) -> (r: bool)
    ensures
        r == (selected(crate::error::views(list@), namespace@, None).len() > 0),
{
    let ghost all = crate::error::views(list@);
    let mut i: usize = 0;
    assert(all.take(0) =~= Seq::empty());
    while i < list.len()
        invariant
            i <= list.len(),
            all == crate::error::views(list@),
            selected(all.take(i as int), namespace@, None).len() == 0,
        decreases list.len() - i,
    {
        proof {
            assert(all.take(i + 1).drop_last() =~= all.take(i as int));
            assert(all.take(i + 1).last() == list@[i as int]@);
        }
        if is_picked(&list[i], namespace, None) {
            proof {
                lemma_selected_grows(all, i + 1, namespace@);
            }
            return true;
        }
        i += 1;
    }
    assert(all.take(list.len() as int) =~= all);
    false
}

proof fn lemma_selected_grows(list: Seq<(RouteView, EntryView)>, n: int, namespace: Seq<char>)
    requires
        0 <= n <= list.len(),
    ensures
        selected(list.take(n), namespace, None).len() <= selected(list, namespace, None).len(),
    decreases list.len() - n,
{
    if n < list.len() {
        assert(list.take(n + 1).drop_last() =~= list.take(n));
        lemma_selected_grows(list, n + 1, namespace);
    } else {
        assert(list.take(n) =~= list);
    }
}

/// The changes that move a namespace to another, which has to be empty.
pub fn move_namespace(
    list: &Vec<Listed>,
    source: &NamespaceContext,
    destination: &NamespaceContext,
) -> (r: Result<Vec<Change>, Error>)
    ensures
        match r {
            Ok(changes) => relocation(crate::error::views(list@), source@, destination@) == Ok::<
                Seq<ChangeView>,
                ErrorView,
            >(crate::error::views(changes@)),
            Err(error) => relocation(crate::error::views(list@), source@, destination@) == Err::<
                Seq<ChangeView>,
                ErrorView,
            >(error@),
        },
{
    if text::same(source.as_str(), destination.as_str()) {
        let none: Vec<Change> = Vec::new();
        assert(crate::error::views(none@) =~= Seq::<ChangeView>::empty());
        return Ok(none);
    }
    if any_in(list, destination) {
        return Err(Error::NamespaceExists(destination.as_str().to_owned()));
    }
    let ghost all = crate::error::views(list@);
    let mut out: Vec<Change> = Vec::new();
    let mut i: usize = 0;
    assert(all.take(0) =~= Seq::empty());
    assert(crate::error::views(out@) =~= arrivals(
        selected(all.take(0), source@, None),
        destination@,
    ));
    while i < list.len()
        invariant
            i <= list.len(),
            all == crate::error::views(list@),
            crate::error::views(out@) == arrivals(
                selected(all.take(i as int), source@, None),
                destination@,
            ),
        decreases list.len() - i,
    {
        let ghost before = crate::error::views(out@);
        let ghost chosen = selected(all.take(i as int), source@, None);
        proof {
            assert(all.take(i + 1).drop_last() =~= all.take(i as int));
            assert(all.take(i + 1).last() == list@[i as int]@);
        }
        if is_picked(&list[i], source, None) {
            let change = Change::Insert {
                namespace: destination.clone(),
                key: list[i].key.clone(),
                entry: list[i].entry.clone(),
            };
            out.push(change);
            assert(crate::error::views(out@) =~= before.push(change@));
            assert(arrivals(chosen.push(list@[i as int]@), destination@) =~= before.push(change@));
        }
        i += 1;
    }
    assert(all.take(list.len() as int) =~= all);
    let ghost first = crate::error::views(out@);
    let mut rest = delete(list, source, None);
    let ghost second = crate::error::views(rest@);
    out.append(&mut rest);
    assert(crate::error::views(out@) =~= first + second);
    Ok(out)
}

/// A value that is written is read back, with the time it has left, and no other
/// value changes. One without a time to live, or with one that outlasts the clock,
/// stays.
pub proof fn writes_are_read_back(
    contents: Map<RouteView, EntryView>,
    route: RouteView,
    value: JsonView,
    ttl: Option<nat>,
    now: u128,
    later: u128,
    latest: u128,
    other: RouteView,
)
    ensures
        ({
            let entry = EntryView { value, expires_at: expiry(ttl, now, latest) };
            let next = after(contents, seq![ChangeView::Insert { route, entry }]);
            &&& next.dom().contains(route)
            &&& stored(next[route], later) == (StoredView {
                value,
                remaining_ttl: left(expiry(ttl, now, latest), later),
            })
            &&& other != route ==> next.dom().contains(other) == contents.dom().contains(other)
                && next[other] == contents[other]
        }),
        match ttl {
            Some(nanos) => {
                &&& now + nanos > latest ==> left(expiry(ttl, now, latest), later) is None
                &&& now <= later <= now + nanos <= latest && nanos
                    <= crate::duration::max_nanos() ==> left(expiry(ttl, now, latest), later)
                    == Some((nanos - (later - now)) as nat)
            },
            None => left(expiry(ttl, now, latest), later) is None,
        },
{
    let entry = EntryView { value, expires_at: expiry(ttl, now, latest) };
    let changes = seq![ChangeView::Insert { route, entry }];
    assert(changes.drop_last() =~= Seq::<ChangeView>::empty());
    reveal_with_fuel(after, 2);
}

/// Of the values that a batch writes under one key the last one is read back, with
/// the time that the batch has left.
pub proof fn batches_are_read_back(
    contents: Map<RouteView, EntryView>,
    namespace: Seq<char>,
    entries: Seq<(Seq<char>, JsonView)>,
    ttl: Option<nat>,
    now: u128,
    later: u128,
    latest: u128,
    k: int,
)
    requires
        0 <= k < entries.len(),
        forall|j: int| k < j < entries.len() ==> (#[trigger] entries[j]).0 != entries[k].0,
    ensures
        ({
            let route = RouteView { namespace, key: entries[k].0 };
            let next = after(contents, insertions(namespace, entries, expiry(ttl, now, latest)));
            &&& next.dom().contains(route)
            &&& stored(next[route], later) == (StoredView {
                value: entries[k].1,
                remaining_ttl: left(expiry(ttl, now, latest), later),
            })
        }),
    decreases entries.len(),
{
    let at = expiry(ttl, now, latest);
    let changes = insertions(namespace, entries, at);
    let rest = entries.drop_last();
    assert(changes.drop_last() =~= insertions(namespace, rest, at));
    if k < rest.len() {
        assert forall|j: int| k < j < rest.len() implies (#[trigger] rest[j]).0 != rest[k].0 by {
            assert(entries[j].0 != entries[k].0);
        }
        batches_are_read_back(contents, namespace, rest, ttl, now, later, latest, k);
        assert(entries[entries.len() - 1].0 != entries[k].0);
    }
}

/// A batch changes no value but those under its own keys in its namespace.
pub proof fn batches_keep_the_rest(
    contents: Map<RouteView, EntryView>,
    namespace: Seq<char>,
    entries: Seq<(Seq<char>, JsonView)>,
    expires_at: Option<u128>,
    other: RouteView,
)
    requires
        other.namespace == namespace ==> forall|i: int|
            0 <= i < entries.len() ==> (#[trigger] entries[i]).0 != other.key,
    ensures
        ({
            let next = after(contents, insertions(namespace, entries, expires_at));
            &&& next.dom().contains(other) == contents.dom().contains(other)
            &&& next[other] == contents[other]
        }),
    decreases entries.len(),
{
    if entries.len() > 0 {
        let changes = insertions(namespace, entries, expires_at);
        let rest = entries.drop_last();
        assert(changes.drop_last() =~= insertions(namespace, rest, expires_at));
        batches_keep_the_rest(contents, namespace, rest, expires_at, other);
        assert(entries[entries.len() - 1] == entries.last());
    }
}

proof fn lemma_selected(
    list: Seq<(RouteView, EntryView)>,
    namespace: Seq<char>,
    pattern: Option<Seq<char>>,
)
    ensures
        forall|k: int|
            0 <= k < selected(list, namespace, pattern).len() ==> picked(
                (#[trigger] selected(list, namespace, pattern)[k]).0,
                namespace,
                pattern,
            ) && list.contains(selected(list, namespace, pattern)[k]),
        forall|i: int|
            0 <= i < list.len() && picked((#[trigger] list[i]).0, namespace, pattern) ==> selected(
                list,
                namespace,
                pattern,
            ).contains(list[i]),
    decreases list.len(),
{
    if list.len() > 0 {
        let rest = list.drop_last();
        let before = selected(rest, namespace, pattern);
        let all = selected(list, namespace, pattern);
        lemma_selected(rest, namespace, pattern);
        assert forall|k: int| 0 <= k < all.len() implies picked(
            (#[trigger] all[k]).0,
            namespace,
            pattern,
        ) && list.contains(all[k]) by {
            if k < before.len() {
                assert(all[k] == before[k]);
                let i = choose|i: int| 0 <= i < rest.len() && rest[i] == before[k];
                assert(list[i] == all[k]);
            } else {
                assert(list[list.len() - 1] == all[k]);
            }
        }
        assert forall|i: int|
            0 <= i < list.len() && picked((#[trigger] list[i]).0, namespace, pattern) implies all
            .contains(list[i]) by {
            if i < rest.len() {
                assert(rest[i] == list[i]);
                let k = choose|k: int| 0 <= k < before.len() && before[k] == list[i];
                assert(all[k] == list[i]);
            } else {
                assert(all[all.len() - 1] == list[i]);
            }
        }
    }
}

proof fn lemma_removed(
    contents: Map<RouteView, EntryView>,
    list: Seq<(RouteView, EntryView)>,
    route: RouteView,
)
    ensures
        after(contents, removals(list)).dom().contains(route) == (contents.dom().contains(route)
            && forall|k: int| 0 <= k < list.len() ==> (#[trigger] list[k]).0 != route),
        after(contents, removals(list)).dom().contains(route) ==> after(contents, removals(list))[route]
            == contents[route],
    decreases list.len(),
{
    if list.len() > 0 {
        let rest = list.drop_last();
        assert(removals(list).drop_last() =~= removals(rest));
        lemma_removed(contents, rest, route);
        assert(removals(list).last() == (ChangeView::Remove { route: list.last().0 }));
        if list.last().0 != route {
            assert forall|k: int| 0 <= k < list.len() implies (#[trigger] list[k]).0 != route
                || exists|j: int| 0 <= j < rest.len() && (#[trigger] rest[j]).0 == route by {
                if k < rest.len() {
                    assert(rest[k] == list[k]);
                }
            }
            assert forall|j: int| 0 <= j < rest.len() implies (#[trigger] rest[j]) == list[j] by {}
        } else {
            assert(list[list.len() - 1].0 == route);
        }
    }
}

proof fn lemma_arrived(
    contents: Map<RouteView, EntryView>,
    list: Seq<(RouteView, EntryView)>,
    destination: Seq<char>,
    route: RouteView,
)
    requires
        forall|i: int, j: int|
            0 <= i < list.len() && 0 <= j < list.len() && (#[trigger] list[i]).0.key == (
            #[trigger] list[j]).0.key ==> i == j,
    ensures
        ({
            let next = after(contents, arrivals(list, destination));
            &&& route.namespace != destination ==> next.dom().contains(route)
                == contents.dom().contains(route) && next[route] == contents[route]
            &&& forall|k: int|
                0 <= k < list.len() && (#[trigger] list[k]).0.key == route.key && route.namespace
                    == destination ==> next.dom().contains(route) && next[route] == list[k].1
            &&& (forall|k: int| 0 <= k < list.len() ==> (#[trigger] list[k]).0.key != route.key)
                ==> next.dom().contains(route) == contents.dom().contains(route) && next[route]
                == contents[route]
        }),
    decreases list.len(),
{
    if list.len() > 0 {
        let rest = list.drop_last();
        assert forall|i: int, j: int|
            0 <= i < rest.len() && 0 <= j < rest.len() && (#[trigger] rest[i]).0.key == (
            #[trigger] rest[j]).0.key implies i == j by {
            assert(rest[i] == list[i]);
            assert(rest[j] == list[j]);
        }
        assert(arrivals(list, destination).drop_last() =~= arrivals(rest, destination));
        lemma_arrived(contents, rest, destination, route);
        let next = after(contents, arrivals(list, destination));
        let last = list.last();
        assert(list[list.len() - 1] == last);
        assert forall|k: int|
            0 <= k < list.len() && (#[trigger] list[k]).0.key == route.key && route.namespace
                == destination implies next.dom().contains(route) && next[route] == list[k].1 by {
            if k < rest.len() {
                assert(rest[k] == list[k]);
                assert(last.0.key != route.key);
            }
        }
        if forall|k: int| 0 <= k < list.len() ==> (#[trigger] list[k]).0.key != route.key {
            assert forall|k: int| 0 <= k < rest.len() implies (#[trigger] rest[k]).0.key
                != route.key by {
                assert(rest[k] == list[k]);
            }
        }
    }
}

/// A deletion removes the entries of its namespace whose keys its pattern stands
/// for, and no others.
pub proof fn deletions_are_scoped(
    contents: Map<RouteView, EntryView>,
    list: Seq<(RouteView, EntryView)>,
    namespace: Seq<char>,
    pattern: Option<Seq<char>>,
    route: RouteView,
)
    requires
        lists(list, contents),
    ensures
        ({
            let next = after(contents, removals(selected(list, namespace, pattern)));
            &&& next.dom().contains(route) == (contents.dom().contains(route) && !picked(
                route,
                namespace,
                pattern,
            ))
            &&& next.dom().contains(route) ==> next[route] == contents[route]
        }),
{
    let chosen = selected(list, namespace, pattern);
    lemma_selected(list, namespace, pattern);
    lemma_removed(contents, chosen, route);
    if contents.dom().contains(route) && picked(route, namespace, pattern) {
        let i = choose|i: int| 0 <= i < list.len() && (#[trigger] list[i]).0 == route;
        let k = choose|k: int| 0 <= k < chosen.len() && chosen[k] == list[i];
        assert(chosen[k].0 == route);
    }
}

proof fn lemma_keys_distinct(
    contents: Map<RouteView, EntryView>,
    list: Seq<(RouteView, EntryView)>,
    namespace: Seq<char>,
)
    requires
        forall|i: int, j: int|
            0 <= i < list.len() && 0 <= j < list.len() && (#[trigger] list[i]).0 == (
            #[trigger] list[j]).0 ==> i == j,
    ensures
        forall|i: int, j: int|
            0 <= i < selected(list, namespace, None).len() && 0 <= j < selected(
                list,
                namespace,
                None,
            ).len() && (#[trigger] selected(list, namespace, None)[i]).0.key == (
            #[trigger] selected(list, namespace, None)[j]).0.key ==> i == j,
    decreases list.len(),
{
    if list.len() > 0 {
        let rest = list.drop_last();
        assert forall|i: int, j: int|
            0 <= i < rest.len() && 0 <= j < rest.len() && (#[trigger] rest[i]).0 == (
            #[trigger] rest[j]).0 implies i == j by {
            assert(rest[i] == list[i]);
            assert(rest[j] == list[j]);
        }
        lemma_keys_distinct(contents, rest, namespace);
        lemma_selected(rest, namespace, None);
        let before = selected(rest, namespace, None);
        let all = selected(list, namespace, None);
        let last = list.last();
        assert(list[list.len() - 1] == last);
        if picked(last.0, namespace, None) {
            assert forall|k: int| 0 <= k < before.len() implies (#[trigger] before[k]).0.key
                != last.0.key by {
                let i = choose|i: int| 0 <= i < rest.len() && rest[i] == before[k];
                assert(list[i] == before[k]);
                if before[k].0.key == last.0.key {
                    assert(before[k].0 == last.0);
                }
            }
            assert forall|i: int, j: int|
                0 <= i < all.len() && 0 <= j < all.len() && (#[trigger] all[i]).0.key == (
                #[trigger] all[j]).0.key implies i == j by {
                if i < before.len() {
                    assert(all[i] == before[i]);
                }
                if j < before.len() {
                    assert(all[j] == before[j]);
                }
            }
        }
    }
}

/// A move takes every value of the source to the destination under its key, with
/// its expiry, leaves nothing behind, and touches no other namespace; it is
/// refused where the destination holds a value.
pub proof fn moves_carry_everything(
    contents: Map<RouteView, EntryView>,
    list: Seq<(RouteView, EntryView)>,
    source: Seq<char>,
    destination: Seq<char>,
    route: RouteView,
)
    requires
        lists(list, contents),
        source != destination,
    ensures
        match relocation(list, source, destination) {
            Err(_) => exists|other: RouteView|
                other.namespace == destination && #[trigger] contents.dom().contains(other),
            Ok(changes) => {
                let next = after(contents, changes);
                let origin = RouteView { namespace: source, key: route.key };
                if route.namespace == source {
                    !next.dom().contains(route)
                } else if route.namespace == destination {
                    next.dom().contains(route) == contents.dom().contains(origin) && (
                    next.dom().contains(route) ==> next[route] == contents[origin])
                } else {
                    next.dom().contains(route) == contents.dom().contains(route) && (
                    next.dom().contains(route) ==> next[route] == contents[route])
                }
            },
        },
{
    let there = selected(list, destination, None);
    let leaving = selected(list, source, None);
    lemma_selected(list, destination, None);
    lemma_selected(list, source, None);
    if there.len() > 0 {
        let i = choose|i: int| 0 <= i < list.len() && list[i] == there[0];
        assert(picked(there[0].0, destination, None));
        assert(contents.dom().contains(list[i].0));
        assert(list[i].0.namespace == destination);
    } else {
        let first = arrivals(leaving, destination);
        let second = removals(leaving);
        let middle = after(contents, first);
        lemma_keys_distinct(contents, list, source);
        lemma_after_both(contents, first, second);
        lemma_arrived(contents, leaving, destination, route);
        lemma_removed(middle, leaving, route);
        let origin = RouteView { namespace: source, key: route.key };
        if contents.dom().contains(origin) {
            let i = choose|i: int| 0 <= i < list.len() && (#[trigger] list[i]).0 == origin;
            assert(picked(list[i].0, source, None));
            let k = choose|k: int| 0 <= k < leaving.len() && leaving[k] == list[i];
            assert(leaving[k].0.key == route.key);
            assert(leaving[k].0 == origin);
        } else {
            assert forall|k: int| 0 <= k < leaving.len() implies (#[trigger] leaving[k]).0.key
                != route.key by {
                assert(picked(leaving[k].0, source, None));
                if leaving[k].0.key == route.key {
                    assert(leaving[k].0 == origin);
                    let i = choose|i: int| 0 <= i < list.len() && list[i] == leaving[k];
                    assert(contents.dom().contains(list[i].0));
                }
            }
        }
        if route.namespace == destination && contents.dom().contains(route) {
            let i = choose|i: int| 0 <= i < list.len() && (#[trigger] list[i]).0 == route;
            assert(picked(list[i].0, destination, None));
            assert(there.contains(list[i]));
        }
        assert forall|k: int| 0 <= k < leaving.len() implies (#[trigger] leaving[k]).0.namespace
            == source by {
            assert(picked(leaving[k].0, source, None));
        }
        if route.namespace == source && contents.dom().contains(route) {
            assert(route == origin);
        }
    }
}

proof fn lemma_after_both(
    contents: Map<RouteView, EntryView>,
    first: Seq<ChangeView>,
    second: Seq<ChangeView>,
)
    ensures
        after(contents, first + second) == after(after(contents, first), second),
    decreases second.len(),
{
    if second.len() == 0 {
        assert(first + second =~= first);
    } else {
        assert((first + second).drop_last() =~= first + second.drop_last());
        lemma_after_both(contents, first, second.drop_last());
    }
}

} // verus!
