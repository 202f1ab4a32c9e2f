//! Connection-scoped registrations of providers and persistence adapters.

use crate::broker::ProvideOptions;
use crate::crypto;
use crate::pattern::{self, Pattern};
use crate::protocol::Uuid;
use crate::route::{Key, KeyPattern, NamespaceContext};
use crate::text;
use vstd::prelude::*;

verus! {

/// The identity of a connection.
pub type ConnectionId = Uuid;

/// A connection that provides values. Instants are nanoseconds of a monotonic
/// clock.
#[derive(Debug)]
pub struct ProviderRegistration {
    pub id: Uuid,
    pub owner: ConnectionId,
    pub namespace_pattern: Pattern,
    pub key_pattern: Pattern,
    pub options: ProvideOptions,
    pub registered_at: u128,
}

/// A [`ProviderRegistration`] as a mathematical value.
#[verifier::ext_equal]
pub struct ProviderView {
    pub id: Uuid,
    pub owner: ConnectionId,
    pub namespace_pattern: Seq<char>,
    pub key_pattern: Seq<char>,
    pub options: ProvideOptions,
    pub registered_at: u128,
}

impl View for ProviderRegistration {
    type V = ProviderView;

    open spec fn view(&self) -> ProviderView {
        ProviderView {
            id: self.id,
            owner: self.owner,
            namespace_pattern: self.namespace_pattern@,
            key_pattern: self.key_pattern@,
            options: self.options,
            registered_at: self.registered_at,
        }
    }
}

impl Clone for ProviderRegistration {
    fn clone(&self) -> (r: Self)
        ensures
            r@ == self@,
    {
        ProviderRegistration {
            id: self.id,
            owner: self.owner,
            namespace_pattern: self.namespace_pattern.clone(),
            key_pattern: self.key_pattern.clone(),
            options: self.options,
            registered_at: self.registered_at,
        }
    }
}

/// A connection that persists values.
#[derive(Debug)]
pub struct StoreRegistration {
    pub id: Uuid,
    pub owner: ConnectionId,
    /// Shared adapter identity, used to avoid reflecting mutations to their origin.
    pub adapter_instance: Option<Uuid>,
    pub namespace_pattern: Pattern,
    pub key_pattern: Pattern,
    pub registered_at: u128,
}

/// A [`StoreRegistration`] as a mathematical value.
#[verifier::ext_equal]
pub struct StoreView {
    pub id: Uuid,
    pub owner: ConnectionId,
    pub adapter_instance: Option<Uuid>,
    pub namespace_pattern: Seq<char>,
    pub key_pattern: Seq<char>,
    pub registered_at: u128,
}

impl View for StoreRegistration {
    type V = StoreView;

    open spec fn view(&self) -> StoreView {
        StoreView {
            id: self.id,
            owner: self.owner,
            adapter_instance: self.adapter_instance,
            namespace_pattern: self.namespace_pattern@,
            key_pattern: self.key_pattern@,
            registered_at: self.registered_at,
        }
    }
}

impl Clone for StoreRegistration {
    fn clone(&self) -> (r: Self)
        ensures
            r@ == self@,
    {
        StoreRegistration {
            id: self.id,
            owner: self.owner,
            adapter_instance: self.adapter_instance,
            namespace_pattern: self.namespace_pattern.clone(),
            key_pattern: self.key_pattern.clone(),
            registered_at: self.registered_at,
        }
    }
}

/// Result of selecting one persistence adapter for every entry in a batch.
#[derive(Debug)]
pub enum BatchStoreMatch {
    NoStore,
    Store(Box<StoreRegistration>),
    Mixed,
}

/// A [`BatchStoreMatch`] as a mathematical value.
#[verifier::ext_equal]
pub enum BatchMatchView {
    NoStore,
    Store(StoreView),
    Mixed,
}

impl View for BatchStoreMatch {
    type V = BatchMatchView;

    open spec fn view(&self) -> BatchMatchView {
        match self {
            BatchStoreMatch::NoStore => BatchMatchView::NoStore,
            BatchStoreMatch::Store(store) => BatchMatchView::Store(store@),
            BatchStoreMatch::Mixed => BatchMatchView::Mixed,
        }
    }
}

/// A pattern's text stands for itself alone.
pub open spec fn is_literal(pattern: Seq<char>) -> bool {
    forall|i: int|
        0 <= i < pattern::parts(pattern).len() ==> #[trigger] pattern::parts(pattern)[i] is Literal
}

/// A namespace pattern covers a namespace: it matches the whole of it, or it is
/// literal text that a context follows.
pub open spec fn covers_namespace(pattern: Seq<char>, namespace: Seq<char>) -> bool {
    ||| pattern::pattern_match(pattern, namespace) is Some
    ||| is_literal(pattern) && (pattern + seq![':', ':']).is_prefix_of(namespace)
}

/// A route is covered by a namespace pattern and a key pattern.
pub open spec fn covers_route(
    namespace_pattern: Seq<char>,
    key_pattern: Seq<char>,
    namespace: Seq<char>,
    key: Seq<char>,
) -> bool {
    covers_namespace(namespace_pattern, namespace) && pattern::pattern_match(key_pattern, key)
        is Some
}

/// `s` ends in a star, and the text before the star starts `other`.
pub open spec fn star_prefix(s: Seq<char>, other: Seq<char>) -> bool {
    s.len() > 0 && s.last() == '*' && s.drop_last().is_prefix_of(other)
}

/// Two key patterns can stand for the same key.
pub open spec fn keys_overlap(left: Seq<char>, right: Seq<char>) -> bool {
    ||| left == seq!['*']
    ||| right == seq!['*']
    ||| pattern::pattern_match(left, right) is Some
    ||| pattern::pattern_match(right, left) is Some
    ||| star_prefix(left, right)
    ||| star_prefix(right, left)
}

/// A registered store is concerned by a change of the keys that `pattern` stands
/// for in a namespace, made by the adapter `source`.
pub open spec fn concerns(
    store: StoreView,
    namespace: Seq<char>,
    pattern: Seq<char>,
    source: Option<Uuid>,
) -> bool {
    &&& !from_source(store, source)
    &&& covers_namespace(store.namespace_pattern, namespace)
    &&& keys_overlap(store.key_pattern, pattern)
}

/// A registered store belongs to the adapter that made the change.
pub open spec fn from_source(store: StoreView, source: Option<Uuid>) -> bool {
    source is Some && store.adapter_instance == source
}

/// Some pattern concerns the store.
pub open spec fn concerns_any(
    store: StoreView,
    namespace: Seq<char>,
    patterns: Seq<Seq<char>>,
    source: Option<Uuid>,
) -> bool {
    exists|k: int|
        0 <= k < patterns.len() && concerns(store, namespace, #[trigger] patterns[k], source)
}

/// Every pattern concerns the store, which does not belong to the source.
pub open spec fn concerns_all(
    store: StoreView,
    namespace: Seq<char>,
    patterns: Seq<Seq<char>>,
    source: Option<Uuid>,
) -> bool {
    &&& !from_source(store, source)
    &&& forall|k: int|
        0 <= k < patterns.len() ==> concerns(store, namespace, #[trigger] patterns[k], source)
}

/// The registrations as mathematical values, the oldest first.
#[verifier::ext_equal]
pub struct RegistryView {
    pub providers: Seq<ProviderView>,
    pub stores: Seq<StoreView>,
    pub next_provider: usize,
}

/// The positions of the providers among the first `n` that cover a route.
pub open spec fn covering(
    providers: Seq<ProviderView>,
    namespace: Seq<char>,
    key: Seq<char>,
    n: int,
) -> Seq<int>
    decreases n,
{
    if n <= 0 {
        Seq::empty()
    } else {
        let before = covering(providers, namespace, key, n - 1);
        let last = providers[n - 1];
        if covers_route(last.namespace_pattern, last.key_pattern, namespace, key) {
            before.push(n - 1)
        } else {
            before
        }
    }
}

/// The position of the newest store among the first `n` that a change concerns.
pub open spec fn newest(
    stores: Seq<StoreView>,
    namespace: Seq<char>,
    pattern: Seq<char>,
    source: Option<Uuid>,
    n: int,
) -> Option<int>
    decreases n,
{
    if n <= 0 {
        None
    } else if concerns(stores[n - 1], namespace, pattern, source) {
        Some(n - 1)
    } else {
        newest(stores, namespace, pattern, source, n - 1)
    }
}

/// The position of the newest store among the first `n` that every pattern
/// concerns.
pub open spec fn newest_for_all(
    stores: Seq<StoreView>,
    namespace: Seq<char>,
    patterns: Seq<Seq<char>>,
    source: Option<Uuid>,
    n: int,
) -> Option<int>
    decreases n,
{
    if n <= 0 {
        None
    } else if concerns_all(stores[n - 1], namespace, patterns, source) {
        Some(n - 1)
    } else {
        newest_for_all(stores, namespace, patterns, source, n - 1)
    }
}

/// The providers that do not belong to a connection.
pub open spec fn others_providers(providers: Seq<ProviderView>, owner: ConnectionId) -> Seq<
    ProviderView,
> {
    providers.filter(|provider: ProviderView| provider.owner != owner)
}

/// The stores that do not belong to a connection.
pub open spec fn others_stores(stores: Seq<StoreView>, owner: ConnectionId) -> Seq<StoreView> {
    stores.filter(|store: StoreView| store.owner != owner)
}

impl RegistryView {
    /// The provider whose turn it is among those that cover a route.
    pub open spec fn provider_for(self, namespace: Seq<char>, key: Seq<char>) -> Option<
        ProviderView,
    > {
        let found = covering(self.providers, namespace, key, self.providers.len() as int);
        if found.len() == 0 {
            None
        } else {
            Some(self.providers[found[self.next_provider as int % found.len() as int]])
        }
    }

    /// The registrations after a provider was asked for: the turn moves on where
    /// there was one.
    pub open spec fn after_provider_for(self, namespace: Seq<char>, key: Seq<char>) -> Self {
        if self.provider_for(namespace, key) is Some {
            RegistryView {
                next_provider: if self.next_provider == usize::MAX {
                    0
                } else {
                    (self.next_provider + 1) as usize
                },
                ..self
            }
        } else {
            self
        }
    }

    /// The newest store that a change concerns.
    pub open spec fn store_for(
        self,
        namespace: Seq<char>,
        pattern: Seq<char>,
        source: Option<Uuid>,
    ) -> Option<StoreView> {
        match newest(self.stores, namespace, pattern, source, self.stores.len() as int) {
            Some(i) => Some(self.stores[i]),
            None => None,
        }
    }

    /// The newest store that every pattern of a batch concerns.
    pub open spec fn store_for_batch(
        self,
        namespace: Seq<char>,
        patterns: Seq<Seq<char>>,
        source: Option<Uuid>,
    ) -> BatchMatchView {
        match newest_for_all(self.stores, namespace, patterns, source, self.stores.len() as int) {
            Some(i) => BatchMatchView::Store(self.stores[i]),
            None => if exists|i: int|
                0 <= i < self.stores.len() && concerns_any(
                    #[trigger] self.stores[i],
                    namespace,
                    patterns,
                    source,
                ) {
                BatchMatchView::Mixed
            } else {
                BatchMatchView::NoStore
            },
        }
    }
}

/// Tracks connection-scoped provider and persistence registrations. Network
/// transport remains outside; callers use the returned owner to dispatch.
#[derive(Debug)]
pub struct Registry {
    providers: Vec<ProviderRegistration>,
    stores: Vec<StoreRegistration>,
    next_provider: usize,
}

impl View for Registry {
    type V = RegistryView;

    closed spec fn view(&self) -> RegistryView {
        RegistryView {
            providers: crate::error::views(self.providers@),
            stores: crate::error::views(self.stores@),
            next_provider: self.next_provider,
        }
    }
}

fn matches_namespace(pattern: &Pattern, namespace: &str) -> (r: bool)
    ensures
        r == covers_namespace(pattern@, namespace@),
{
    if pattern.matches(namespace).is_some() {
        return true;
    }
    if pattern.has_wildcard_or_capture() {
        return false;
    }
    let mut text = pattern.source().to_owned();
    text.push(':');
    text.push(':');
    assert(text@ =~= pattern@ + seq![':', ':']);
    text::starts_with(namespace, text.as_str())
}

fn matches_route(
    namespace_pattern: &Pattern,
    key_pattern: &Pattern,
    namespace: &NamespaceContext,
    key: &Key,
) -> (r: bool)
    ensures
        r == covers_route(namespace_pattern@, key_pattern@, namespace@, key@),
{
    matches_namespace(namespace_pattern, namespace.as_str()) && key_pattern.matches(
        key.as_str(),
    ).is_some()
}

fn starts_before_star(s: &str, other: &str) -> (r: bool)
    ensures
        r == star_prefix(s@, other@),
{
    let chars = text::chars_of(s);
    if chars.len() == 0 || chars[chars.len() - 1] != '*' {
        return false;
    }
    let prefix = text::slice(&chars, 0, chars.len() - 1);
    assert(prefix@ =~= s@.drop_last());
    text::starts_with(other, prefix.as_str())
}

fn pattern_overlap(left: &Pattern, right: &str) -> (r: bool)
    ensures
        r == keys_overlap(left@, right@),
{
    proof {
        reveal_strlit("*");
        assert("*"@ =~= seq!['*']);
    }
    text::same(left.source(), "*") || text::same(right, "*") || left.matches(right).is_some()
        || Pattern::new(right).matches(left.source()).is_some() || starts_before_star(
        left.source(),
        right,
    ) || starts_before_star(right, left.source())
}

fn is_from(store: &StoreRegistration, source: Option<Uuid>) -> (r: bool)
    ensures
        r == from_source(store@, source),
{
    match (source, store.adapter_instance) {
        (Some(source), Some(instance)) => source == instance,
        _ => false,
    }
}

fn is_concerned(
    store: &StoreRegistration,
    namespace: &NamespaceContext,
    pattern: &KeyPattern,
    source: Option<Uuid>,
) -> (r: bool)
    ensures
        r == concerns(store@, namespace@, pattern@, source),
{
    !is_from(store, source) && matches_namespace(&store.namespace_pattern, namespace.as_str())
        && pattern_overlap(&store.key_pattern, pattern.as_str())
}

impl Registry {
    /// No registrations.
    pub fn new() -> (r: Self)
        ensures
            r@ == (RegistryView { providers: Seq::empty(), stores: Seq::empty(), next_provider: 0 }),
    {
        let r = Registry { providers: Vec::new(), stores: Vec::new(), next_provider: 0 };
        assert(r@.providers =~= Seq::<ProviderView>::empty());
        assert(r@.stores =~= Seq::<StoreView>::empty());
        r
    }

    /// Registers a provider under the identifier.
    pub fn insert_provider(
        &mut self,
        id: Uuid,
        owner: ConnectionId,
        namespace_pattern: &str,
        key_pattern: &str,
        options: ProvideOptions,
        now: u128,
    ) -> (r: ProviderRegistration)
        ensures
            r@ == (ProviderView {
                id,
                owner,
                namespace_pattern: namespace_pattern@,
                key_pattern: key_pattern@,
                options,
                registered_at: now,
            }),
            final(self)@ == (RegistryView {
                providers: old(self)@.providers.push(r@),
                ..old(self)@
            }),
    {
        let registration = ProviderRegistration {
            id,
            owner,
            namespace_pattern: Pattern::new(namespace_pattern),
            key_pattern: Pattern::new(key_pattern),
            options,
            registered_at: now,
        };
        let ghost before = self@.providers;
        let copy = registration.clone();
        self.providers.push(registration);
        assert(self@.providers =~= before.push(copy@));
        copy
    }

    /// Registers a provider under an identifier of its own.
    pub fn register_provider(
        &mut self,
        owner: ConnectionId,
        namespace_pattern: &str,
        key_pattern: &str,
        options: ProvideOptions,
        now: u128,
    ) -> (r: ProviderRegistration)
        ensures
            r@ == (ProviderView {
                id: r@.id,
                owner,
                namespace_pattern: namespace_pattern@,
                key_pattern: key_pattern@,
                options,
                registered_at: now,
            }),
            final(self)@ == (RegistryView {
                providers: old(self)@.providers.push(r@),
                ..old(self)@
            }),
    {
        let id: Uuid = crypto::fresh_uuid();
        self.insert_provider(id, owner, namespace_pattern, key_pattern, options, now)
    }

    /// Registers a store under the identifier.
    pub fn insert_store(
        &mut self,
        id: Uuid,
        owner: ConnectionId,
        adapter_instance: Option<Uuid>,
        namespace_pattern: &str,
        key_pattern: &str,
        now: u128,
    ) -> (r: StoreRegistration)
        ensures
            r@ == (StoreView {
                id,
                owner,
                adapter_instance,
                namespace_pattern: namespace_pattern@,
                key_pattern: key_pattern@,
                registered_at: now,
            }),
            final(self)@ == (RegistryView { stores: old(self)@.stores.push(r@), ..old(self)@ }),
    {
        let registration = StoreRegistration {
            id,
            owner,
            adapter_instance,
            namespace_pattern: Pattern::new(namespace_pattern),
            key_pattern: Pattern::new(key_pattern),
            registered_at: now,
        };
        let ghost before = self@.stores;
        let copy = registration.clone();
        self.stores.push(registration);
        assert(self@.stores =~= before.push(copy@));
        copy
    }

    /// Registers a store under an identifier of its own.
    pub fn register_store(
        &mut self,
        owner: ConnectionId,
        adapter_instance: Option<Uuid>,
        namespace_pattern: &str,
        key_pattern: &str,
        now: u128,
    ) -> (r: StoreRegistration)
        ensures
            r@ == (StoreView {
                id: r@.id,
                owner,
                adapter_instance,
                namespace_pattern: namespace_pattern@,
                key_pattern: key_pattern@,
                registered_at: now,
            }),
            final(self)@ == (RegistryView { stores: old(self)@.stores.push(r@), ..old(self)@ }),
    {
        let id: Uuid = crypto::fresh_uuid();
        self.insert_store(id, owner, adapter_instance, namespace_pattern, key_pattern, now)
    }

    /// Forgets what a connection registered.
    pub fn remove_owner(&mut self, owner: ConnectionId)
        ensures
            final(self)@ == (RegistryView {
                providers: others_providers(old(self)@.providers, owner),
                stores: others_stores(old(self)@.stores, owner),
                next_provider: old(self)@.next_provider,
            }),
    {
        let ghost providers = self@.providers;
        let ghost stores = self@.stores;
        let mut kept: Vec<ProviderRegistration> = Vec::new();
        let mut i: usize = 0;
        reveal(Seq::filter);
        assert(others_providers(providers.take(0), owner) =~= crate::error::views(kept@));
        while i < self.providers.len()
            invariant
                i <= self.providers.len(),
                providers == crate::error::views(self.providers@),
                stores == self@.stores,
                self.next_provider == old(self).next_provider,
                crate::error::views(kept@) == others_providers(providers.take(i as int), owner),
            decreases self.providers.len() - i,
        {
            let ghost upto = providers.take(i + 1);
            let ghost before = crate::error::views(kept@);
            let item = self.providers[i].clone();
            proof {
                reveal(Seq::filter);
                assert(upto.drop_last() =~= providers.take(i as int));
                assert(upto.last() == self.providers@[i as int]@);
            }
            if item.owner != owner {
                kept.push(item);
                assert(crate::error::views(kept@) =~= before.push(item@));
            }
            i += 1;
        }
        assert(providers.take(providers.len() as int) =~= providers);
        self.providers = kept;
        let mut left: Vec<StoreRegistration> = Vec::new();
        let mut j: usize = 0;
        assert(others_stores(stores.take(0), owner) =~= crate::error::views(left@)) by {
            reveal(Seq::filter);
        }
        while j < self.stores.len()
            invariant
                j <= self.stores.len(),
                stores == crate::error::views(self.stores@),
                self@.providers == others_providers(providers, owner),
                self.next_provider == old(self).next_provider,
                crate::error::views(left@) == others_stores(stores.take(j as int), owner),
            decreases self.stores.len() - j,
        {
            let ghost upto = stores.take(j + 1);
            let ghost before = crate::error::views(left@);
            let item = self.stores[j].clone();
            proof {
                reveal(Seq::filter);
                assert(upto.drop_last() =~= stores.take(j as int));
                assert(upto.last() == self.stores@[j as int]@);
            }
            if item.owner != owner {
                left.push(item);
                assert(crate::error::views(left@) =~= before.push(item@));
            }
            j += 1;
        }
        assert(stores.take(stores.len() as int) =~= stores);
        self.stores = left;
    }

    /// The provider for a route. Matching providers are selected in rotation.
    pub fn provider_for(&mut self, namespace: &NamespaceContext, key: &Key) -> (r: Option<
        ProviderRegistration,
    >)
        ensures
            crate::error::inner(r) == old(self)@.provider_for(namespace@, key@),
            final(self)@ == old(self)@.after_provider_for(namespace@, key@),
    {
        let ghost providers = self@.providers;
        let mut found: Vec<usize> = Vec::new();
        let mut i: usize = 0;
        while i < self.providers.len()
            invariant
                i <= self.providers.len(),
                providers == crate::error::views(self.providers@),
                found.len() == covering(providers, namespace@, key@, i as int).len(),
                forall|k: int|
                    0 <= k < found.len() ==> (#[trigger] found@[k]) as int == covering(
                        providers,
                        namespace@,
                        key@,
                        i as int,
                    )[k] && found@[k] < i,
            decreases self.providers.len() - i,
        {
            assert(providers[i as int] == self.providers@[i as int]@);
            if matches_route(
                &self.providers[i].namespace_pattern,
                &self.providers[i].key_pattern,
                namespace,
                key,
            ) {
                found.push(i);
            }
            i += 1;
        }
        if found.len() == 0 {
            return None;
        }
        let turn: usize = self.next_provider % found.len();
        let at: usize = found[turn];
        let selected = self.providers[at].clone();
        self.next_provider = self.next_provider.wrapping_add(1);
        assert(providers[at as int] == selected@);
        Some(selected)
    }

    /// Most recently registered matching store wins. A mutation from an adapter
    /// skips every registration sharing its stable adapter instance.
    pub fn store_for(
        &self,
        namespace: &NamespaceContext,
        pattern: &KeyPattern,
        source_adapter: Option<Uuid>,
    ) -> (r: Option<StoreRegistration>)
        ensures
            crate::error::inner(r) == self@.store_for(namespace@, pattern@, source_adapter),
    {
        let ghost stores = self@.stores;
        let mut i: usize = self.stores.len();
        while i > 0
            invariant
                i <= self.stores.len(),
                stores == crate::error::views(self.stores@),
                stores == self@.stores,
                newest(stores, namespace@, pattern@, source_adapter, stores.len() as int) == newest(
                    stores,
                    namespace@,
                    pattern@,
                    source_adapter,
                    i as int,
                ),
            decreases i,
        {
            i -= 1;
            assert(stores[i as int] == self.stores@[i as int]@);
            if is_concerned(&self.stores[i], namespace, pattern, source_adapter) {
                return Some(self.stores[i].clone());
            }
        }
        None
    }

    /// Select the newest store that matches every key in a batch. If one or
    /// more stores match only a subset, callers must reject the batch instead
    /// of silently splitting persistence across adapters.
    pub fn store_for_batch(
        &self,
        namespace: &NamespaceContext,
        patterns: &Vec<KeyPattern>,
        source_adapter: Option<Uuid>,
    ) -> (r: BatchStoreMatch)
        ensures
            r@ == self@.store_for_batch(
                namespace@,
                crate::error::views(patterns@),
                source_adapter,
            ),
    {
        let ghost stores = self@.stores;
        let ghost all = crate::error::views(patterns@);
        let mut any = false;
        let mut i: usize = self.stores.len();
        while i > 0
            invariant
                i <= self.stores.len(),
                stores == crate::error::views(self.stores@),
                stores == self@.stores,
                all == crate::error::views(patterns@),
                newest_for_all(stores, namespace@, all, source_adapter, stores.len() as int)
                    == newest_for_all(stores, namespace@, all, source_adapter, i as int),
                any == exists|k: int|
                    i <= k < stores.len() && concerns_any(
                        #[trigger] stores[k],
                        namespace@,
                        all,
                        source_adapter,
                    ),
            decreases i,
        {
            i -= 1;
            assert(stores[i as int] == self.stores@[i as int]@);
            let (some, every) = batch_fit(
                &self.stores[i],
                namespace,
                patterns,
                source_adapter,
            );
            if every {
                return BatchStoreMatch::Store(Box::new(self.stores[i].clone()));
            }
            if some {
                any = true;
            }
        }
        if any {
            BatchStoreMatch::Mixed
        } else {
            BatchStoreMatch::NoStore
        }
    }

    /// The number of registered providers.
    pub fn provider_count(&self) -> (r: usize)
        ensures
            r == self@.providers.len(),
    {
        self.providers.len()
    }
}

fn batch_fit(
    store: &StoreRegistration,
    namespace: &NamespaceContext,
    patterns: &Vec<KeyPattern>,
    source: Option<Uuid>,
) -> (r: (bool, bool))
    ensures
        r.0 == concerns_any(store@, namespace@, crate::error::views(patterns@), source),
        r.1 == concerns_all(store@, namespace@, crate::error::views(patterns@), source),
{
    let ghost all = crate::error::views(patterns@);
    let mut some = false;
    let mut every = !is_from(store, source);
    let mut k: usize = 0;
    while k < patterns.len()
        invariant
            k <= patterns.len(),
            all == crate::error::views(patterns@),
            some == exists|j: int|
                0 <= j < k && concerns(store@, namespace@, #[trigger] all[j], source),
            every == (!from_source(store@, source) && forall|j: int|
                0 <= j < k ==> concerns(store@, namespace@, #[trigger] all[j], source)),
        decreases patterns.len() - k,
    {
        assert(all[k as int] == patterns@[k as int]@);
        if is_concerned(store, namespace, &patterns[k], source) {
            some = true;
        } else {
            every = false;
        }
        k += 1;
    }
    (some, every)
}

/// A change is never persisted by the adapter that made it.
pub proof fn source_adapter_is_excluded(
    registry: RegistryView,
    namespace: Seq<char>,
    pattern: Seq<char>,
    patterns: Seq<Seq<char>>,
    source: Uuid,
)
    ensures
        registry.store_for(namespace, pattern, Some(source)) matches Some(store)
            ==> store.adapter_instance != Some(source),
        registry.store_for_batch(namespace, patterns, Some(source)) matches BatchMatchView::Store(
            store,
        ) ==> store.adapter_instance != Some(source),
{
    lemma_newest(registry.stores, namespace, pattern, Some(source), registry.stores.len() as int);
    lemma_newest_for_all(
        registry.stores,
        namespace,
        patterns,
        Some(source),
        registry.stores.len() as int,
    );
}

proof fn lemma_newest(
    stores: Seq<StoreView>,
    namespace: Seq<char>,
    pattern: Seq<char>,
    source: Option<Uuid>,
    n: int,
)
    requires
        n <= stores.len(),
    ensures
        match newest(stores, namespace, pattern, source, n) {
            Some(i) => {
                &&& 0 <= i < n
                &&& concerns(stores[i], namespace, pattern, source)
                &&& forall|j: int|
                    i < j < n ==> !concerns(#[trigger] stores[j], namespace, pattern, source)
            },
            None => forall|j: int|
                0 <= j < n ==> !concerns(#[trigger] stores[j], namespace, pattern, source),
        },
    decreases n,
{
    if n > 0 && !concerns(stores[n - 1], namespace, pattern, source) {
        lemma_newest(stores, namespace, pattern, source, n - 1);
    }
}

proof fn lemma_newest_for_all(
    stores: Seq<StoreView>,
    namespace: Seq<char>,
    patterns: Seq<Seq<char>>,
    source: Option<Uuid>,
    n: int,
)
    requires
        n <= stores.len(),
    ensures
        newest_for_all(stores, namespace, patterns, source, n) matches Some(i) ==> 0 <= i < n
            && concerns_all(stores[i], namespace, patterns, source),
    decreases n,
{
    if n > 0 && !concerns_all(stores[n - 1], namespace, patterns, source) {
        lemma_newest_for_all(stores, namespace, patterns, source, n - 1);
    }
}

proof fn lemma_covering_kept(
    providers: Seq<ProviderView>,
    more: Seq<ProviderView>,
    namespace: Seq<char>,
    key: Seq<char>,
    n: int,
)
    requires
        n <= providers.len(),
        providers.is_prefix_of(more),
    ensures
        covering(more, namespace, key, n) == covering(providers, namespace, key, n),
    decreases n,
{
    if n > 0 {
        lemma_covering_kept(providers, more, namespace, key, n - 1);
        assert(more[n - 1] == providers[n - 1]);
    }
}

/// A provider that registers comes last among those that cover a route.
pub proof fn lemma_covering_push(
    providers: Seq<ProviderView>,
    provider: ProviderView,
    namespace: Seq<char>,
    key: Seq<char>,
)
    ensures
        ({
            let n = providers.len() as int;
            let before = covering(providers, namespace, key, n);
            covering(providers.push(provider), namespace, key, n + 1) == (if covers_route(
                provider.namespace_pattern,
                provider.key_pattern,
                namespace,
                key,
            ) {
                before.push(n)
            } else {
                before
            })
        }),
{
    let more = providers.push(provider);
    assert(providers.is_prefix_of(more));
    lemma_covering_kept(providers, more, namespace, key, providers.len() as int);
}

proof fn lemma_newest_kept(
    stores: Seq<StoreView>,
    more: Seq<StoreView>,
    namespace: Seq<char>,
    pattern: Seq<char>,
    source: Option<Uuid>,
    n: int,
)
    requires
        n <= stores.len(),
        stores.is_prefix_of(more),
    ensures
        newest(more, namespace, pattern, source, n) == newest(stores, namespace, pattern, source, n),
        newest(stores, namespace, pattern, source, n) matches Some(i) ==> 0 <= i < n,
    decreases n,
{
    if n > 0 {
        lemma_newest_kept(stores, more, namespace, pattern, source, n - 1);
        assert(more[n - 1] == stores[n - 1]);
    }
}

/// A store that registers comes before the others for the changes that concern it.
pub proof fn lemma_newest_push(
    stores: Seq<StoreView>,
    store: StoreView,
    namespace: Seq<char>,
    pattern: Seq<char>,
    source: Option<Uuid>,
)
    ensures
        ({
            let n = stores.len() as int;
            let before = newest(stores, namespace, pattern, source, n);
            &&& newest(stores.push(store), namespace, pattern, source, n + 1) == (if concerns(
                store,
                namespace,
                pattern,
                source,
            ) {
                Some(n)
            } else {
                before
            })
            &&& before matches Some(i) ==> 0 <= i < n && stores.push(store)[i] == stores[i]
        }),
{
    let more = stores.push(store);
    assert(stores.is_prefix_of(more));
    lemma_newest_kept(stores, more, namespace, pattern, source, stores.len() as int);
}

/// Of the stores that a change concerns, the one registered last gets it.
pub proof fn newest_store_wins(
    registry: RegistryView,
    namespace: Seq<char>,
    pattern: Seq<char>,
    source: Option<Uuid>,
    i: int,
)
    requires
        0 <= i < registry.stores.len(),
        concerns(registry.stores[i], namespace, pattern, source),
        forall|j: int|
            i < j < registry.stores.len() ==> !concerns(
                #[trigger] registry.stores[j],
                namespace,
                pattern,
                source,
            ),
    ensures
        registry.store_for(namespace, pattern, source) == Some(registry.stores[i]),
{
    lemma_newest(registry.stores, namespace, pattern, source, registry.stores.len() as int);
}

/// Asking for a provider again and again selects the matching ones in turn:
/// the next one asked for is the next in the order of registration, and the
/// first after the last.
pub proof fn providers_rotate(registry: RegistryView, namespace: Seq<char>, key: Seq<char>)
    requires
        registry.provider_for(namespace, key) is Some,
        registry.next_provider < usize::MAX,
    ensures
        ({
            let found = covering(
                registry.providers,
                namespace,
                key,
                registry.providers.len() as int,
            );
            let turn = registry.next_provider as int % found.len() as int;
            let next = if turn + 1 == found.len() {
                0
            } else {
                turn + 1
            };
            &&& registry.provider_for(namespace, key) == Some(registry.providers[found[turn]])
            &&& registry.after_provider_for(namespace, key).provider_for(namespace, key) == Some(
                registry.providers[found[next]],
            )
        }),
{
    let found = covering(registry.providers, namespace, key, registry.providers.len() as int);
    let n = found.len() as int;
    let c = registry.next_provider as int;
    assert((c + 1) % n == (if c % n + 1 == n {
        0
    } else {
        c % n + 1
    })) by {
        vstd::arithmetic::div_mod::lemma_fundamental_div_mod(c, n);
        assert((c / n + 1) * n == n * (c / n) + n && (c / n) * n == n * (c / n))
            by (nonlinear_arith);
        if c % n + 1 == n {
            vstd::arithmetic::div_mod::lemma_fundamental_div_mod_converse(c + 1, n, c / n + 1, 0);
        } else {
            vstd::arithmetic::div_mod::lemma_fundamental_div_mod_converse(
                c + 1,
                n,
                c / n,
                c % n + 1,
            );
        }
    }
}

/// After a connection is gone, none of its registrations is left.
pub proof fn removed_owners_are_gone(registry: RegistryView, owner: ConnectionId)
    ensures
        forall|i: int|
            0 <= i < others_providers(registry.providers, owner).len() ==> (
            #[trigger] others_providers(registry.providers, owner)[i]).owner != owner,
        forall|i: int|
            0 <= i < others_stores(registry.stores, owner).len() ==> (#[trigger] others_stores(
                registry.stores,
                owner,
            )[i]).owner != owner,
{
    broadcast use vstd::seq_lib::group_filter_ensures;

    let providers = others_providers(registry.providers, owner);
    let stores = others_stores(registry.stores, owner);
    assert forall|i: int| 0 <= i < providers.len() implies (#[trigger] providers[i]).owner
        != owner by {
        assert(providers.contains(providers[i]));
    }
    assert forall|i: int| 0 <= i < stores.len() implies (#[trigger] stores[i]).owner != owner by {
        assert(stores.contains(stores[i]));
    }
}

} // verus!
