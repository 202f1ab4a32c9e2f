//! What patterns stand for, and which registrations they select.

use crate::pattern::{self, TokenView};
use crate::protocol::Uuid;
use crate::registry::{self, BatchMatchView, ProviderView, RegistryView, StoreView};
use crate::text;
use vstd::prelude::*;

verus! {

/// A text without wildcards and captures, that is, without stars, braces and dollar signs.
pub open spec fn is_plain(s: Seq<char>) -> bool {
    !s.contains('*') && !s.contains('{') && !s.contains('$')
}

/// A text that begins with another.
pub open spec fn begins(s: Seq<char>, start: Seq<char>) -> bool {
    start.len() <= s.len() && forall|i: int| 0 <= i < start.len() ==> #[trigger] start[i] == s[i]
}

proof fn lemma_begins(s: Seq<char>, start: Seq<char>)
    ensures
        begins(s, start) <==> start.is_prefix_of(s),
{
    if start.is_prefix_of(s) {
        assert forall|i: int| 0 <= i < start.len() implies #[trigger] start[i] == s[i] by {
            assert(s.take(start.len() as int)[i] == start[i]);
        }
    }
    if begins(s, start) {
        assert(s.take(start.len() as int) =~= start);
    }
}

proof fn lemma_cut(s: Seq<char>, part: Seq<char>, plain: int, bound: int)
    requires
        part.len() > 0,
        0 <= plain <= bound <= s.len(),
        forall|i: int| 0 <= i < plain ==> s[i] != part[0],
    ensures
        plain <= pattern::cut_before(s, part, bound) <= bound,
        plain > 0 && text::occurs_at(s, part, plain) ==> pattern::cut_before(s, part, bound)
            == plain,
{
    text::lemma_find_from(s, part, 1);
    if let Some(at) = text::find_from(s, part, 1) {
        assert(s.subrange(at, at + part.len())[0] == s[at]);
        assert(s[at] == part[0]);
        if plain > 0 && text::occurs_at(s, part, plain) {
            assert(at <= plain);
        }
    } else if plain > 0 {
        assert(!text::occurs_at(s, part, plain));
    }
}

proof fn lemma_literal(start: Seq<char>, rest: Seq<char>)
    requires
        start.len() > 0,
        is_plain(start),
        rest.len() == 0 || rest[0] == '*' || rest[0] == '{',
    ensures
        pattern::parts(start + rest) == seq![TokenView::Literal(start)] + pattern::parts(rest),
{
    let s = start + rest;
    let n = start.len() as int;
    assert forall|i: int| 0 <= i < n implies s[i] != '*' && s[i] != '{' && s[i] != '$' by {
        assert(s[i] == start[i]);
    }
    assert(pattern::capture_offset(s) == 0);
    lemma_cut(s, seq!['*'], n, s.len() as int);
    let one = pattern::cut_before(s, seq!['*'], s.len() as int);
    lemma_cut(s, seq!['{'], n, one);
    let two = pattern::cut_before(s, seq!['{'], one);
    lemma_cut(s, seq!['$', '{'], n, two);
    if rest.len() > 0 {
        assert(s[n] == rest[0]);
        if rest[0] == '*' {
            assert(s.subrange(n, n + 1) =~= seq!['*']);
        } else {
            assert(s.subrange(n, n + 1) =~= seq!['{']);
        }
    }
    assert(pattern::literal_end(s) == n);
    assert(s.take(n) =~= start);
    assert(s.skip(n) =~= rest);
}

proof fn lemma_plain(start: Seq<char>)
    requires
        is_plain(start),
    ensures
        pattern::parts(start) == if start.len() == 0 {
            Seq::<TokenView>::empty()
        } else {
            seq![TokenView::Literal(start)]
        },
{
    if start.len() > 0 {
        lemma_literal(start, Seq::empty());
        assert(start + Seq::<char>::empty() =~= start);
        assert(seq![TokenView::Literal(start)] + pattern::parts(Seq::empty()) =~= seq![
            TokenView::Literal(start),
        ]);
    }
}

/// The parts of a plain text, then others.
spec fn after_plain(start: Seq<char>, more: Seq<TokenView>) -> Seq<TokenView> {
    if start.len() == 0 {
        more
    } else {
        seq![TokenView::Literal(start)] + more
    }
}

proof fn lemma_after_plain(start: Seq<char>, more: Seq<TokenView>, value: Seq<char>)
    ensures
        begins(value, start) ==> pattern::matched(after_plain(start, more), value)
            == pattern::matched(more, value.skip(start.len() as int)),
        !begins(value, start) ==> pattern::matched(after_plain(start, more), value) is None,
{
    lemma_begins(value, start);
    if start.len() == 0 {
        assert(value.skip(0) =~= value);
    } else {
        let tokens = after_plain(start, more);
        assert(tokens.skip(1) =~= more);
        assert(tokens[0] == TokenView::Literal(start));
    }
}

/// A plain pattern stands for its own text and captures nothing.
pub proof fn plain_patterns_stand_for_themselves(text: Seq<char>, value: Seq<char>)
    requires
        is_plain(text),
    ensures
        pattern::pattern_match(text, value) == if value == text {
            Some(Map::<Seq<char>, Seq<char>>::empty())
        } else {
            None
        },
{
    lemma_plain(text);
    lemma_after_plain(text, Seq::empty(), value);
    assert(pattern::parts(text) =~= after_plain(text, Seq::empty()));
    if begins(value, text) && value.len() == text.len() {
        assert(value =~= text);
    }
}

/// A star at the end stands for any text, also for none: the pattern stands for whatever
/// begins with what is before it.
pub proof fn stars_stand_for_any_text(text: Seq<char>, value: Seq<char>)
    requires
        is_plain(text),
    ensures
        pattern::pattern_match(text.push('*'), value) == if begins(value, text) {
            Some(Map::<Seq<char>, Seq<char>>::empty())
        } else {
            None
        },
        pattern::pattern_match(seq!['*'], value) == Some(Map::<Seq<char>, Seq<char>>::empty()),
{
    let star = seq!['*'];
    let wild = seq![TokenView::Wildcard];
    lemma_star();
    assert(text.push('*') =~= text + star);
    if text.len() > 0 {
        lemma_literal(text, star);
    } else {
        assert(text + star =~= star);
    }
    assert(pattern::parts(text.push('*')) =~= after_plain(text, wild));
    lemma_after_plain(text, wild, value);
    lemma_wild(value.skip(text.len() as int));
    lemma_wild(value);
}

proof fn lemma_star()
    ensures
        pattern::parts(seq!['*']) == seq![TokenView::Wildcard],
{
    let star = seq!['*'];
    assert(star.skip(1) =~= Seq::<char>::empty());
    assert(pattern::parts(star.skip(1)) =~= Seq::<TokenView>::empty());
    assert(pattern::parts(star) =~= seq![TokenView::Wildcard]);
}

proof fn lemma_wild(value: Seq<char>)
    ensures
        pattern::matched(seq![TokenView::Wildcard], value) == Some(
            Seq::<(Seq<char>, Seq<char>)>::empty(),
        ),
{
    let wild = seq![TokenView::Wildcard];
    let none = Seq::<TokenView>::empty();
    assert(wild.skip(1) =~= none);
    assert(value.skip(value.len() as int) =~= Seq::<char>::empty());
    assert(pattern::matched(none, value.skip(value.len() as int)) == Some(
        Seq::<(Seq<char>, Seq<char>)>::empty(),
    ));
    assert(pattern::longest(none, value, value.len() as int) == Some(
        Seq::<(Seq<char>, Seq<char>)>::empty(),
    ));
}

proof fn lemma_capture(name: Seq<char>, value: Seq<char>, taken: int)
    requires
        1 <= taken <= value.len(),
    ensures
        pattern::shortest(Seq::empty(), name, value, taken) == Some(seq![(name, value)]),
    decreases value.len() - taken,
{
    if taken < value.len() {
        assert(value.skip(taken).len() > 0);
        assert(pattern::matched(Seq::empty(), value.skip(taken)) is None);
        lemma_capture(name, value, taken + 1);
    } else {
        assert(value.skip(taken) =~= Seq::<char>::empty());
        assert(pattern::matched(Seq::empty(), value.skip(taken)) == Some(
            Seq::<(Seq<char>, Seq<char>)>::empty(),
        ));
        assert(value.take(taken) =~= value);
        assert(seq![(name, value.take(taken))] + Seq::<(Seq<char>, Seq<char>)>::empty() =~= seq![
            (name, value),
        ]);
    }
}

/// A name between braces at the end stands for the rest of the value, which it captures
/// under that name, and which must not be empty.
pub proof fn captures_hold_what_they_stand_for(
    text: Seq<char>,
    name: Seq<char>,
    value: Seq<char>,
)
    requires
        is_plain(text),
        name.len() > 0,
        !name.contains('}'),
    ensures
        pattern::pattern_match(text + seq!['{'] + name + seq!['}'], value) == if begins(
            value,
            text,
        ) && value.len() > text.len() {
            Some(
                Map::<Seq<char>, Seq<char>>::empty().insert(
                    name,
                    value.subrange(text.len() as int, value.len() as int),
                ),
            )
        } else {
            None
        },
{
    let braced = seq!['{'] + name + seq!['}'];
    let whole = text + seq!['{'] + name + seq!['}'];
    let capture = seq![TokenView::Capture(name)];
    let n = name.len() as int;
    assert(whole =~= text + braced);
    assert(braced[0] == '{');
    assert(braced.subrange(n + 1, n + 2) =~= seq!['}']);
    assert forall|j: int| 0 <= j < n + 1 implies !#[trigger] text::occurs_at(
        braced,
        seq!['}'],
        j,
    ) by {
        if text::occurs_at(braced, seq!['}'], j) {
            assert(braced.subrange(j, j + 1)[0] == braced[j]);
            if j > 0 {
                assert(braced[j] == name[j - 1]);
                assert(name.contains('}'));
            }
        }
    }
    text::lemma_find_from_is(braced, seq!['}'], 0, n + 1);
    assert(braced.subrange(1, n + 1) =~= name);
    assert(braced.skip(n + 2) =~= Seq::<char>::empty());
    assert(pattern::parts(braced.skip(n + 2)) =~= Seq::<TokenView>::empty());
    assert(pattern::capture_end(braced) == Some(n + 1));
    assert(pattern::parts(braced) =~= capture);
    if text.len() > 0 {
        lemma_literal(text, braced);
    } else {
        assert(text + braced =~= braced);
    }
    assert(pattern::parts(whole) =~= after_plain(text, capture));
    lemma_after_plain(text, capture, value);
    let rest = value.skip(text.len() as int);
    assert(capture.skip(1) =~= Seq::<TokenView>::empty());
    if begins(value, text) {
        assert(rest =~= value.subrange(text.len() as int, value.len() as int));
        if rest.len() > 0 {
            lemma_capture(name, rest, 1);
            let found = seq![(name, rest)];
            assert(found.drop_last() =~= Seq::<(Seq<char>, Seq<char>)>::empty());
            reveal_with_fuel(pattern::capture_map, 2);
            assert(pattern::capture_map(found) =~= Map::<Seq<char>, Seq<char>>::empty().insert(
                name,
                rest,
            ));
        }
    }
}

/// A plain namespace pattern covers its namespace and the contexts of it; one with a star
/// at its end whatever begins with what is before the star.
pub proof fn namespace_patterns_cover(text: Seq<char>, namespace: Seq<char>)
    requires
        is_plain(text),
    ensures
        registry::covers_namespace(text, namespace) <==> namespace == text || begins(
            namespace,
            text.push(':').push(':'),
        ),
        registry::covers_namespace(text.push('*'), namespace) <==> begins(namespace, text),
{
    plain_patterns_stand_for_themselves(text, namespace);
    stars_stand_for_any_text(text, namespace);
    lemma_plain(text);
    assert(text + seq![':', ':'] =~= text.push(':').push(':'));
    lemma_begins(namespace, text.push(':').push(':'));
    assert(registry::is_literal(text));
    let star = seq!['*'];
    let wild = seq![TokenView::Wildcard];
    lemma_star();
    assert(text.push('*') =~= text + star);
    if text.len() > 0 {
        lemma_literal(text, star);
    } else {
        assert(text + star =~= star);
    }
    assert(pattern::parts(text.push('*')) =~= after_plain(text, wild));
    let last = pattern::parts(text.push('*')).len() - 1;
    assert(pattern::parts(text.push('*'))[last] == TokenView::Wildcard);
}

/// A store with a plain key pattern is concerned by a change of that key alone; one with a
/// star at its end by the keys that begin with what is before it, and by the deletions
/// whose patterns can stand for such a key. A star alone is concerned by everything.
pub proof fn key_patterns_overlap(text: Seq<char>, other: Seq<char>, any: Seq<char>)
    requires
        is_plain(text),
        is_plain(other),
    ensures
        registry::keys_overlap(text, other) <==> text == other,
        registry::keys_overlap(text.push('*'), other) <==> begins(other, text),
        registry::keys_overlap(text, other.push('*')) <==> begins(text, other),
        registry::keys_overlap(text.push('*'), other.push('*')) <==> begins(other, text) || begins(
            text,
            other,
        ),
        registry::keys_overlap(seq!['*'], any),
        registry::keys_overlap(any, seq!['*']),
{
    let left = text.push('*');
    let right = other.push('*');
    plain_patterns_stand_for_themselves(text, other);
    plain_patterns_stand_for_themselves(other, text);
    plain_patterns_stand_for_themselves(other, left);
    plain_patterns_stand_for_themselves(text, right);
    stars_stand_for_any_text(text, other);
    stars_stand_for_any_text(text, right);
    stars_stand_for_any_text(other, text);
    stars_stand_for_any_text(other, left);
    lemma_begins(other, text);
    lemma_begins(text, other);
    lemma_begins(right, text);
    lemma_begins(left, other);
    lemma_pushed(other, text);
    lemma_pushed(text, other);
    assert(left[text.len() as int] == '*');
    assert(right[other.len() as int] == '*');
    assert(left.drop_last() =~= text);
    assert(right.drop_last() =~= other);
    if other == left {
        assert(other.contains('*'));
    }
    if text == right {
        assert(text.contains('*'));
    }
    let star = seq!['*'];
    assert(star.contains('*')) by {
        assert(star[0] == '*');
    }
    assert(text != star && other != star);
    if left == star {
        assert(text.len() == 0);
    }
    if right == star {
        assert(other.len() == 0);
    }
    if text.len() > 0 && text.last() == '*' {
        assert(text[text.len() - 1] == '*');
    }
    if other.len() > 0 && other.last() == '*' {
        assert(other[other.len() - 1] == '*');
    }
}

proof fn lemma_pushed(s: Seq<char>, start: Seq<char>)
    requires
        !start.contains('*'),
    ensures
        begins(s.push('*'), start) <==> begins(s, start),
{
    if begins(s.push('*'), start) {
        if start.len() == s.len() + 1 {
            assert(start[s.len() as int] == s.push('*')[s.len() as int]);
            assert(start.contains('*'));
        }
        assert forall|i: int| 0 <= i < start.len() implies #[trigger] start[i] == s[i] by {
            assert(s.push('*')[i] == s[i]);
        }
    }
    if begins(s, start) {
        assert forall|i: int| 0 <= i < start.len() implies #[trigger] start[i] == s.push('*')[i] by {
            assert(s.push('*')[i] == s[i]);
        }
    }
}

/// A provider covers a route with its namespace pattern and its key pattern.
pub open spec fn provides(provider: ProviderView, namespace: Seq<char>, key: Seq<char>) -> bool {
    registry::covers_namespace(provider.namespace_pattern, namespace) && pattern::pattern_match(
        provider.key_pattern,
        key,
    ) is Some
}

proof fn lemma_covering(
    providers: Seq<ProviderView>,
    namespace: Seq<char>,
    key: Seq<char>,
    n: int,
)
    requires
        0 <= n <= providers.len(),
    ensures
        ({
            let found = registry::covering(providers, namespace, key, n);
            &&& forall|k: int|
                0 <= k < found.len() ==> 0 <= #[trigger] found[k] < n && provides(
                    providers[found[k]],
                    namespace,
                    key,
                )
            &&& forall|i: int|
                0 <= i < n && provides(#[trigger] providers[i], namespace, key) ==> found.contains(i)
        }),
    decreases n,
{
    if n > 0 {
        lemma_covering(providers, namespace, key, n - 1);
        let before = registry::covering(providers, namespace, key, n - 1);
        let found = registry::covering(providers, namespace, key, n);
        assert forall|i: int|
            0 <= i < n && provides(#[trigger] providers[i], namespace, key) implies found.contains(
            i,
        ) by {
            if i < n - 1 {
                assert(before.contains(i));
                let k = choose|k: int| 0 <= k < before.len() && before[k] == i;
                assert(found[k] == i);
            } else {
                assert(found[found.len() - 1] == i);
            }
        }
    }
}

/// The provider that is asked for a route is one that covers it, and where there is one
/// somebody is asked. Being asked changes whose turn it is and nothing else.
pub proof fn asked_providers_cover_the_route(
    registry: RegistryView,
    namespace: Seq<char>,
    key: Seq<char>,
)
    ensures
        registry.provider_for(namespace, key) matches Some(provider) ==> registry.providers.contains(
            provider,
        ) && provides(provider, namespace, key),
        registry.provider_for(namespace, key) is None <==> forall|i: int|
            0 <= i < registry.providers.len() ==> !provides(
                #[trigger] registry.providers[i],
                namespace,
                key,
            ),
        registry.after_provider_for(namespace, key).providers == registry.providers,
        registry.after_provider_for(namespace, key).stores == registry.stores,
{
    let n = registry.providers.len() as int;
    lemma_covering(registry.providers, namespace, key, n);
    let found = registry::covering(registry.providers, namespace, key, n);
    if found.len() > 0 {
        let turn = registry.next_provider as int % found.len() as int;
        assert(0 <= turn < found.len());
        assert(0 <= found[turn] < n);
        assert(provides(registry.providers[found[turn]], namespace, key));
    }
}

/// A store is concerned by a change of a namespace and the keys of a pattern, unless its
/// own adapter made it.
pub open spec fn persists(
    store: StoreView,
    namespace: Seq<char>,
    keys: Seq<char>,
    source: Option<Uuid>,
) -> bool {
    &&& source is None || store.adapter_instance != source
    &&& registry::covers_namespace(store.namespace_pattern, namespace)
    &&& registry::keys_overlap(store.key_pattern, keys)
}

/// The last of the stores that satisfy something.
pub open spec fn is_newest(stores: Seq<StoreView>, wanted: spec_fn(StoreView) -> bool, i: int) -> bool {
    &&& 0 <= i < stores.len()
    &&& wanted(stores[i])
    &&& forall|j: int| i < j < stores.len() ==> !wanted(#[trigger] stores[j])
}

proof fn lemma_newest(
    stores: Seq<StoreView>,
    namespace: Seq<char>,
    keys: Seq<char>,
    source: Option<Uuid>,
    n: int,
)
    requires
        0 <= n <= stores.len(),
    ensures
        match registry::newest(stores, namespace, keys, source, n) {
            Some(i) => 0 <= i < n && persists(stores[i], namespace, keys, source) && forall|j: int|
                i < j < n ==> !persists(#[trigger] stores[j], namespace, keys, source),
            None => forall|j: int|
                0 <= j < n ==> !persists(#[trigger] stores[j], namespace, keys, source),
        },
    decreases n,
{
    if n > 0 && !persists(stores[n - 1], namespace, keys, source) {
        lemma_newest(stores, namespace, keys, source, n - 1);
    }
}

/// A change goes to the store registered last of those that it concerns, and to none where
/// it concerns none.
pub proof fn changes_go_to_the_newest_store(
    registry: RegistryView,
    namespace: Seq<char>,
    keys: Seq<char>,
    source: Option<Uuid>,
    i: int,
)
    ensures
        ({
            let wanted = |store: StoreView| persists(store, namespace, keys, source);
            &&& is_newest(registry.stores, wanted, i) ==> registry.store_for(namespace, keys, source)
                == Some(registry.stores[i])
            &&& registry.store_for(namespace, keys, source) is None <==> forall|j: int|
                0 <= j < registry.stores.len() ==> !persists(
                    #[trigger] registry.stores[j],
                    namespace,
                    keys,
                    source,
                )
        }),
{
    let wanted = |store: StoreView| persists(store, namespace, keys, source);
    lemma_newest(registry.stores, namespace, keys, source, registry.stores.len() as int);
    if is_newest(registry.stores, wanted, i) {
        assert(wanted(registry.stores[i]));
        match registry::newest(
            registry.stores,
            namespace,
            keys,
            source,
            registry.stores.len() as int,
        ) {
            Some(k) => {
                assert(wanted(registry.stores[k]));
            },
            None => {},
        }
    }
}

/// A store is concerned by every key of a batch.
pub open spec fn persists_all(
    store: StoreView,
    namespace: Seq<char>,
    keys: Seq<Seq<char>>,
    source: Option<Uuid>,
) -> bool {
    forall|k: int| 0 <= k < keys.len() ==> persists(store, namespace, #[trigger] keys[k], source)
}

proof fn lemma_newest_for_all(
    stores: Seq<StoreView>,
    namespace: Seq<char>,
    keys: Seq<Seq<char>>,
    source: Option<Uuid>,
    n: int,
)
    requires
        0 <= n <= stores.len(),
        keys.len() > 0,
    ensures
        match registry::newest_for_all(stores, namespace, keys, source, n) {
            Some(i) => 0 <= i < n && persists_all(stores[i], namespace, keys, source) && forall|
                j: int,
            |
                i < j < n ==> !persists_all(#[trigger] stores[j], namespace, keys, source),
            None => forall|j: int|
                0 <= j < n ==> !persists_all(#[trigger] stores[j], namespace, keys, source),
        },
    decreases n,
{
    if n > 0 {
        lemma_all(stores[n - 1], namespace, keys, source);
        if !persists_all(stores[n - 1], namespace, keys, source) {
            lemma_newest_for_all(stores, namespace, keys, source, n - 1);
        }
    }
}

proof fn lemma_all(
    store: StoreView,
    namespace: Seq<char>,
    keys: Seq<Seq<char>>,
    source: Option<Uuid>,
)
    requires
        keys.len() > 0,
    ensures
        registry::concerns_all(store, namespace, keys, source) <==> persists_all(
            store,
            namespace,
            keys,
            source,
        ),
        registry::concerns_any(store, namespace, keys, source) <==> exists|k: int|
            0 <= k < keys.len() && persists(store, namespace, #[trigger] keys[k], source),
{
    assert forall|k: int| 0 <= k < keys.len() implies persists(
        store,
        namespace,
        #[trigger] keys[k],
        source,
    ) == registry::concerns(store, namespace, keys[k], source) by {}
    if persists_all(store, namespace, keys, source) {
        assert(persists(store, namespace, keys[0], source));
    }
}

/// A batch goes to the store registered last of those that all its keys concern. Where
/// some keys concern a store and no store gets them all, the batch is mixed; where none
/// does, it goes to no store.
pub proof fn batches_go_to_one_store(
    registry: RegistryView,
    namespace: Seq<char>,
    keys: Seq<Seq<char>>,
    source: Option<Uuid>,
    i: int,
)
    requires
        keys.len() > 0,
    ensures
        ({
            let all = |store: StoreView| persists_all(store, namespace, keys, source);
            let someone = exists|j: int, k: int|
                0 <= j < registry.stores.len() && 0 <= k < keys.len() && persists(
                    #[trigger] registry.stores[j],
                    namespace,
                    #[trigger] keys[k],
                    source,
                );
            let found = registry.store_for_batch(namespace, keys, source);
            &&& is_newest(registry.stores, all, i) ==> found == BatchMatchView::Store(
                registry.stores[i],
            )
            &&& found is Store <==> exists|j: int|
                0 <= j < registry.stores.len() && persists_all(
                    #[trigger] registry.stores[j],
                    namespace,
                    keys,
                    source,
                )
            &&& found is NoStore <==> !someone
        }),
{
    let all = |store: StoreView| persists_all(store, namespace, keys, source);
    let n = registry.stores.len() as int;
    lemma_newest_for_all(registry.stores, namespace, keys, source, n);
    assert forall|j: int| 0 <= j < n implies (registry::concerns_any(
        #[trigger] registry.stores[j],
        namespace,
        keys,
        source,
    ) <==> exists|k: int|
        0 <= k < keys.len() && persists(
            registry.stores[j],
            namespace,
            #[trigger] keys[k],
            source,
        )) by {
        lemma_all(registry.stores[j], namespace, keys, source);
    }
    let newest = registry::newest_for_all(registry.stores, namespace, keys, source, n);
    if let Some(j) = newest {
        assert(all(registry.stores[j]));
        assert(persists(registry.stores[j], namespace, keys[0], source));
    }
    if is_newest(registry.stores, all, i) {
        assert(all(registry.stores[i]));
    }
}

/// A connection that is gone takes its own registrations with it and leaves the others, in
/// their order.
pub proof fn others_stay_registered(registry: RegistryView, owner: Uuid, provider: ProviderView, store: StoreView)
    ensures
        registry::others_providers(registry.providers, owner).contains(provider)
            <==> registry.providers.contains(provider) && provider.owner != owner,
        registry::others_stores(registry.stores, owner).contains(store)
            <==> registry.stores.contains(store) && store.owner != owner,
{
    lemma_filtered(registry.providers, |provider: ProviderView| provider.owner != owner, provider);
    lemma_filtered(registry.stores, |store: StoreView| store.owner != owner, store);
}

proof fn lemma_filtered<A>(s: Seq<A>, wanted: spec_fn(A) -> bool, item: A)
    ensures
        s.filter(wanted).contains(item) <==> s.contains(item) && wanted(item),
    decreases s.len(),
{
    reveal(Seq::filter);
    if s.len() > 0 {
        let rest = s.drop_last();
        let kept = rest.filter(wanted);
        let all = s.filter(wanted);
        lemma_filtered(rest, wanted, item);
        if all.contains(item) {
            let i = choose|i: int| 0 <= i < all.len() && all[i] == item;
            if i < kept.len() {
                assert(kept[i] == item);
                assert(rest.contains(item));
                let k = choose|k: int| 0 <= k < rest.len() && rest[k] == item;
                assert(s[k] == item);
            } else {
                assert(s[s.len() - 1] == item);
            }
        }
        if s.contains(item) && wanted(item) {
            let k = choose|k: int| 0 <= k < s.len() && s[k] == item;
            if k < rest.len() {
                assert(rest[k] == item);
                assert(kept.contains(item));
                let i = choose|i: int| 0 <= i < kept.len() && kept[i] == item;
                assert(all[i] == item);
            } else {
                assert(all[all.len() - 1] == item);
            }
        }
    }
}

/// A key pattern with a star at its end concerns every key and pattern that begins with
/// what is before the star, whatever stands there, from either side.
pub proof fn stars_concern_what_begins_alike(prefix: Seq<char>, rest: Seq<char>)
    ensures
        registry::keys_overlap(prefix.push('*'), prefix + rest),
        registry::keys_overlap(prefix + rest, prefix.push('*')),
{
    assert(prefix.push('*').drop_last() =~= prefix);
    assert(prefix.is_prefix_of(prefix + rest));
}

} // verus!
