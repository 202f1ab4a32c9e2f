//! The routes that are being refreshed, with the generation of each.

use crate::protocol::Uuid;
use crate::route::{self, Key, NamespaceContext, Route, RouteView};
use crate::text;
use vstd::prelude::*;

verus! {

/// The state of a route that is being refreshed.
#[derive(Clone, Copy, Debug, PartialEq, Eq, Structural)]
pub struct RouteState {
    /// Counts the mutations of the route while it is active.
    pub generation: u64,
    /// Identifies the refresh that activated the route.
    pub provider_refresh_id: Uuid,
}

/// The next generation.
pub open spec fn next_generation(generation: u64) -> u64 {
    if generation == u64::MAX {
        0
    } else {
        (generation + 1) as u64
    }
}

/// The state of a route after a mutation.
pub open spec fn mutated(state: RouteState) -> RouteState {
    RouteState { generation: next_generation(state.generation), ..state }
}

/// A mutation of the keys that `pattern` stands for in `namespace` concerns a
/// route.
pub open spec fn is_affected(route: RouteView, namespace: Seq<char>, pattern: Seq<char>) -> bool {
    route.namespace == namespace && route::key_matches(pattern, route.key)
}

/// The routes after a mutation of the keys that `pattern` stands for.
pub open spec fn broadly_mutated(
    routes: Map<RouteView, RouteState>,
    namespace: Seq<char>,
    pattern: Seq<char>,
) -> Map<RouteView, RouteState> {
    Map::new(
        |route: RouteView| routes.dom().contains(route),
        |route: RouteView|
            if is_affected(route, namespace, pattern) {
                mutated(routes[route])
            } else {
                routes[route]
            },
    )
}

spec fn distinct(entries: Seq<(Route, RouteState)>) -> bool {
    forall|i: int, j: int|
        0 <= i < entries.len() && 0 <= j < entries.len() && #[trigger] entries[i].0@
            == #[trigger] entries[j].0@ ==> i == j
}

spec fn present(entries: Seq<(Route, RouteState)>, route: RouteView) -> bool {
    exists|i: int| 0 <= i < entries.len() && #[trigger] entries[i].0@ == route
}

spec fn position(entries: Seq<(Route, RouteState)>, route: RouteView) -> int {
    choose|i: int| 0 <= i < entries.len() && #[trigger] entries[i].0@ == route
}

spec fn as_map(entries: Seq<(Route, RouteState)>) -> Map<RouteView, RouteState> {
    Map::new(
        |route: RouteView| present(entries, route),
        |route: RouteView| entries[position(entries, route)].1,
    )
}

proof fn lemma_at(entries: Seq<(Route, RouteState)>, i: int)
    requires
        distinct(entries),
        0 <= i < entries.len(),
    ensures
        as_map(entries).dom().contains(entries[i].0@),
        as_map(entries)[entries[i].0@] == entries[i].1,
        position(entries, entries[i].0@) == i,
{
    assert(present(entries, entries[i].0@));
    let p = position(entries, entries[i].0@);
    assert(entries[p].0@ == entries[i].0@);
}

/// The routes that are being refreshed.
#[derive(Debug)]
pub struct ActiveRoutes {
    entries: Vec<(Route, RouteState)>,
}

impl View for ActiveRoutes {
    type V = Map<RouteView, RouteState>;

    closed spec fn view(&self) -> Map<RouteView, RouteState> {
        as_map(self.entries@)
    }
}

impl ActiveRoutes {
    #[verifier::type_invariant]
    spec fn well_formed(self) -> bool {
        distinct(self.entries@)
    }

    /// No active routes.
    pub fn new() -> (r: Self)
        ensures
            r@ == Map::<RouteView, RouteState>::empty(),
    {
        let r = ActiveRoutes { entries: Vec::new() };
        assert(r@ =~= Map::<RouteView, RouteState>::empty());
        r
    }

    fn find(&self, namespace: &NamespaceContext, key: &Key) -> (r: Option<usize>)
        ensures
            match r {
                Some(i) => i < self.entries.len() && self.entries@[i as int].0@ == (RouteView {
                    namespace: namespace@,
                    key: key@,
                }) && self@.dom().contains(RouteView { namespace: namespace@, key: key@ })
                    && self@[RouteView { namespace: namespace@, key: key@ }]
                    == self.entries@[i as int].1,
                None => !self@.dom().contains(RouteView { namespace: namespace@, key: key@ }),
            },
    {
        proof {
            use_type_invariant(self);
        }
        let ghost route = RouteView { namespace: namespace@, key: key@ };
        let mut i: usize = 0;
        while i < self.entries.len()
            invariant
                i <= self.entries.len(),
                distinct(self.entries@),
                route == (RouteView { namespace: namespace@, key: key@ }),
                forall|j: int| 0 <= j < i ==> #[trigger] self.entries@[j].0@ != route,
            decreases self.entries.len() - i,
        {
            if text::same(self.entries[i].0.namespace.as_str(), namespace.as_str()) && text::same(
                self.entries[i].0.key.as_str(),
                key.as_str(),
            ) {
                assert(self.entries@[i as int].0@ == route);
                proof {
                    lemma_at(self.entries@, i as int);
                }
                return Some(i);
            }
            i += 1;
        }
        None
    }

    /// The state of a route, if it is active.
    pub fn get(&self, namespace: &NamespaceContext, key: &Key) -> (r: Option<RouteState>)
        ensures
            r == (if self@.dom().contains(RouteView { namespace: namespace@, key: key@ }) {
                Some(self@[RouteView { namespace: namespace@, key: key@ }])
            } else {
                None
            }),
    {
        match self.find(namespace, key) {
            Some(i) => Some(self.entries[i].1),
            None => None,
        }
    }

    /// The state of a route; one that is not active becomes so under the given
    /// identifier.
    pub fn activate(&mut self, namespace: &NamespaceContext, key: &Key, refresh_id: Uuid) -> (r:
        RouteState)
        ensures
            ({
                let route = RouteView { namespace: namespace@, key: key@ };
                let fresh = RouteState { generation: 0, provider_refresh_id: refresh_id };
                if old(self)@.dom().contains(route) {
                    r == old(self)@[route] && final(self)@ == old(self)@
                } else {
                    r == fresh && final(self)@ == old(self)@.insert(route, fresh)
                }
            }),
    {
        let found = self.find(namespace, key);
        if let Some(i) = found {
            return self.entries[i].1;
        }
        let ghost route = RouteView { namespace: namespace@, key: key@ };
        let state = RouteState { generation: 0, provider_refresh_id: refresh_id };
        proof {
            use_type_invariant(&*self);
        }
        let ghost start = self@;
        let mut entries: Vec<(Route, RouteState)> = Vec::new();
        std::mem::swap(&mut entries, &mut self.entries);
        let ghost before = entries@;
        let added = Route { namespace: namespace.clone(), key: key.clone() };
        entries.push((added, state));
        proof {
            let after = entries@;
            let n = before.len() as int;
            assert(!present(before, route));
            assert(after[n].0@ == route);
            assert forall|i: int, j: int|
                0 <= i < after.len() && 0 <= j < after.len() && #[trigger] after[i].0@
                    == #[trigger] after[j].0@ implies i == j by {
                if i < n && j < n {
                    assert(before[i].0@ == before[j].0@);
                } else if i < n {
                    assert(before[i].0@ == route);
                } else if j < n {
                    assert(before[j].0@ == route);
                }
            }
            let target = start.insert(route, state);
            assert forall|x: RouteView| #[trigger] as_map(after).dom().contains(x)
                <==> target.dom().contains(x) by {
                if present(after, x) {
                    let p = position(after, x);
                    if p < n {
                        assert(before[p].0@ == x);
                    }
                }
                if present(before, x) {
                    let p = position(before, x);
                    assert(after[p].0@ == x);
                }
            }
            assert forall|x: RouteView| #[trigger] target.dom().contains(x) implies as_map(after)[x]
                == target[x] by {
                if x == route {
                    lemma_at(after, n);
                } else {
                    let p = position(before, x);
                    assert(present(before, x));
                    lemma_at(after, p);
                    assert(after[p].0@ == x);
                }
            }
            assert(as_map(after) =~= target);
        }
        self.entries = entries;
        state
    }

    /// Counts a mutation of a route. Whether the route is active.
    pub fn bump(&mut self, namespace: &NamespaceContext, key: &Key) -> (r: bool)
        ensures
            ({
                let route = RouteView { namespace: namespace@, key: key@ };
                r == old(self)@.dom().contains(route) && final(self)@ == (if r {
                    old(self)@.insert(route, mutated(old(self)@[route]))
                } else {
                    old(self)@
                })
            }),
    {
        let ghost route = RouteView { namespace: namespace@, key: key@ };
        match self.find(namespace, key) {
            Some(i) => {
                proof {
                    use_type_invariant(&*self);
                }
                let ghost start = self@;
                let mut entries: Vec<(Route, RouteState)> = Vec::new();
                std::mem::swap(&mut entries, &mut self.entries);
                let ghost before = entries@;
                let (moved, state) = entries.remove(i);
                let next = RouteState {
                    generation: state.generation.wrapping_add(1),
                    provider_refresh_id: state.provider_refresh_id,
                };
                entries.insert(i, (moved, next));
                proof {
                    let after = entries@;
                    assert(after.len() == before.len());
                    assert forall|k: int| 0 <= k < after.len() implies after[k].0 == before[k].0 && (
                    k != i ==> #[trigger] after[k] == before[k]) by {}
                    lemma_same_routes(before, after);
                    let target = start.insert(route, mutated(start[route]));
                    assert forall|x: RouteView| #[trigger] target.dom().contains(x) implies as_map(
                        after,
                    )[x] == target[x] by {
                        let p = position(before, x);
                        assert(present(before, x));
                        lemma_at(after, p);
                        lemma_at(before, p);
                        if x != route {
                            assert(p != i);
                        } else {
                            lemma_at(before, i as int);
                        }
                    }
                    assert(as_map(after) =~= target);
                }
                self.entries = entries;
                true
            },
            None => false,
        }
    }

    /// Counts a mutation of every active route of a namespace that the pattern
    /// stands for, and returns the keys of those routes.
    pub fn bump_matching(&mut self, namespace: &NamespaceContext, pattern: &str) -> (r: Vec<Key>)
        ensures
            final(self)@ == broadly_mutated(old(self)@, namespace@, pattern@),
            forall|i: int|
                0 <= i < r.len() ==> old(self)@.dom().contains(
                    RouteView { namespace: namespace@, key: (#[trigger] r@[i])@ },
                ) && route::key_matches(pattern@, r@[i]@),
            forall|route: RouteView|
                #![trigger old(self)@.dom().contains(route)]
                old(self)@.dom().contains(route) && is_affected(route, namespace@, pattern@)
                    ==> exists|i: int| 0 <= i < r.len() && #[trigger] r@[i]@ == route.key,
    {
        proof {
            use_type_invariant(&*self);
        }
        let ghost start = self@;
        let mut left: Vec<(Route, RouteState)> = Vec::new();
        std::mem::swap(&mut left, &mut self.entries);
        let ghost before = left@;
        let mut entries: Vec<(Route, RouteState)> = Vec::new();
        let mut affected: Vec<Key> = Vec::new();
        assert(before.take(before.len() as int) =~= before);
        while left.len() > 0
            invariant
                left.len() <= before.len(),
                left@ == before.take(left.len() as int),
                entries.len() == before.len() - left.len(),
                distinct(before),
                start == as_map(before),
                forall|k: int|
                    left.len() <= k < before.len() ==> {
                        let e = entries@[before.len() - 1 - k];
                        &&& e.0 == (#[trigger] before[k]).0
                        &&& e.1 == (if is_affected(before[k].0@, namespace@, pattern@) {
                            mutated(before[k].1)
                        } else {
                            before[k].1
                        })
                    },
                forall|i: int|
                    0 <= i < affected.len() ==> start.dom().contains(
                        RouteView { namespace: namespace@, key: (#[trigger] affected@[i])@ },
                    ) && route::key_matches(pattern@, affected@[i]@),
                forall|k: int|
                    left.len() <= k < before.len() && is_affected(
                        (#[trigger] before[k]).0@,
                        namespace@,
                        pattern@,
                    ) ==> exists|i: int|
                        0 <= i < affected.len() && #[trigger] affected@[i]@ == before[k].0@.key,
            decreases left.len(),
        {
            let ghost k = left.len() - 1;
            let ghost affected_before = affected@;
            if let Some((route, state)) = left.pop() {
                assert((route, state) == before[k]);
                let hit = text::same(route.namespace.as_str(), namespace.as_str())
                    && route::key_text_matches(pattern, route.key.as_str());
                assert(hit == is_affected(route@, namespace@, pattern@));
                if hit {
                    affected.push(route.key.clone());
                    assert(affected@[affected.len() - 1]@ == before[k].0@.key);
                    proof {
                        lemma_at(before, k);
                        assert(before[k].0@ == (RouteView {
                            namespace: namespace@,
                            key: route.key@,
                        }));
                        assert forall|m: int|
                            k <= m < before.len() && is_affected(
                                (#[trigger] before[m]).0@,
                                namespace@,
                                pattern@,
                            ) implies exists|i: int|
                            0 <= i < affected.len() && #[trigger] affected@[i]@
                                == before[m].0@.key by {
                            if m > k {
                                let i = choose|i: int|
                                    0 <= i < affected_before.len() && #[trigger] affected_before[i]@
                                        == before[m].0@.key;
                                assert(affected@[i] == affected_before[i]);
                            }
                        }
                    }
                }
                let next = if hit {
                    RouteState {
                        generation: state.generation.wrapping_add(1),
                        provider_refresh_id: state.provider_refresh_id,
                    }
                } else {
                    state
                };
                entries.push((route, next));
            }
            assert(left@ =~= before.take(k));
        }
        let entries = text::reversed(entries);
        proof {
            let after = entries@;
            assert forall|k: int| 0 <= k < before.len() implies {
                &&& (#[trigger] after[k]).0 == before[k].0
                &&& after[k].1 == (if is_affected(before[k].0@, namespace@, pattern@) {
                    mutated(before[k].1)
                } else {
                    before[k].1
                })
            } by {
                assert(before[k] == before[k]);
            }
            lemma_same_routes(before, after);
            let target = broadly_mutated(start, namespace@, pattern@);
            assert forall|x: RouteView| #[trigger] target.dom().contains(x) implies as_map(after)[x]
                == target[x] by {
                let p = position(before, x);
                assert(present(before, x));
                lemma_at(after, p);
                lemma_at(before, p);
            }
            assert(as_map(after) =~= target);
            assert forall|route: RouteView|
                #![trigger start.dom().contains(route)]
                start.dom().contains(route) && is_affected(route, namespace@, pattern@) implies exists|
                i: int,
            |
                0 <= i < affected.len() && #[trigger] affected@[i]@ == route.key by {
                let p = position(before, route);
                assert(present(before, route));
                assert(before[p].0@ == route);
            }
        }
        self.entries = entries;
        affected
    }

    /// Ends the refresh of a route, if the identifier is still that of the
    /// route's refresh.
    pub fn release(&mut self, namespace: &NamespaceContext, key: &Key, refresh_id: Uuid)
        ensures
            ({
                let route = RouteView { namespace: namespace@, key: key@ };
                final(self)@ == (if old(self)@.dom().contains(route) && old(
                    self,
                )@[route].provider_refresh_id == refresh_id {
                    old(self)@.remove(route)
                } else {
                    old(self)@
                })
            }),
    {
        let ghost route = RouteView { namespace: namespace@, key: key@ };
        let found = self.find(namespace, key);
        if let Some(i) = found {
            if self.entries[i].1.provider_refresh_id == refresh_id {
                proof {
                    use_type_invariant(&*self);
                }
                let ghost start = self@;
                let mut entries: Vec<(Route, RouteState)> = Vec::new();
                std::mem::swap(&mut entries, &mut self.entries);
                let ghost before = entries@;
                let _ = entries.remove(i);
                proof {
                    let after = entries@;
                    assert forall|a: int, b: int|
                        0 <= a < after.len() && 0 <= b < after.len() && #[trigger] after[a].0@
                            == #[trigger] after[b].0@ implies a == b by {
                        let x = if a < i {
                            a
                        } else {
                            a + 1
                        };
                        let y = if b < i {
                            b
                        } else {
                            b + 1
                        };
                        assert(before[x].0@ == before[y].0@);
                    }
                    let target = start.remove(route);
                    assert forall|x: RouteView| #[trigger] as_map(after).dom().contains(x)
                        <==> target.dom().contains(x) by {
                        if present(after, x) {
                            let a = position(after, x);
                            let p = if a < i {
                                a
                            } else {
                                a + 1
                            };
                            assert(before[p].0@ == x);
                            assert(before[i as int].0@ == route);
                        }
                        if target.dom().contains(x) {
                            let p = position(before, x);
                            assert(present(before, x));
                            let a = if p < i {
                                p
                            } else {
                                p - 1
                            };
                            assert(after[a].0@ == x);
                        }
                    }
                    assert forall|x: RouteView| #[trigger] target.dom().contains(x) implies as_map(
                        after,
                    )[x] == target[x] by {
                        assert(as_map(after).dom().contains(x));
                        let p = position(before, x);
                        assert(present(before, x));
                        let a = if p < i {
                            p
                        } else {
                            p - 1
                        };
                        lemma_at(after, a);
                        assert(after[a].0@ == x);
                    }
                    assert(as_map(after) =~= target);
                }
                self.entries = entries;
            }
        }
    }

    /// The number of active routes.
    pub fn len(&self) -> (r: usize)
        ensures
            r == self@.dom().len(),
            self@.dom().finite(),
    {
        proof {
            use_type_invariant(self);
            lemma_size(self.entries@);
        }
        self.entries.len()
    }
}

proof fn lemma_same_routes(before: Seq<(Route, RouteState)>, after: Seq<(Route, RouteState)>)
    requires
        distinct(before),
        before.len() == after.len(),
        forall|k: int| 0 <= k < before.len() ==> (#[trigger] after[k]).0 == before[k].0,
    ensures
        distinct(after),
        forall|x: RouteView| #[trigger] present(after, x) <==> present(before, x),
        forall|x: RouteView|
            present(before, x) ==> #[trigger] position(after, x) == position(before, x),
{
    assert forall|i: int, j: int|
        0 <= i < after.len() && 0 <= j < after.len() && #[trigger] after[i].0@
            == #[trigger] after[j].0@ implies i == j by {
        assert(before[i].0@ == before[j].0@);
    }
    assert forall|x: RouteView| #[trigger] present(after, x) <==> present(before, x) by {
        if present(after, x) {
            let p = position(after, x);
            assert(before[p].0@ == x);
        }
        if present(before, x) {
            let p = position(before, x);
            assert(after[p].0@ == x);
        }
    }
    assert forall|x: RouteView| present(before, x) implies #[trigger] position(after, x)
        == position(before, x) by {
        let p = position(before, x);
        assert(after[p].0@ == x);
        let q = position(after, x);
        assert(after[q].0@ == after[p].0@);
    }
}

proof fn lemma_size(entries: Seq<(Route, RouteState)>)
    requires
        distinct(entries),
    ensures
        as_map(entries).dom().finite(),
        as_map(entries).dom().len() == entries.len(),
    decreases entries.len(),
{
    if entries.len() == 0 {
        assert(as_map(entries).dom() =~= Set::<RouteView>::empty());
    } else {
        let front = entries.drop_last();
        let n = entries.len() - 1;
        let last = entries[n].0@;
        assert forall|i: int, j: int|
            0 <= i < front.len() && 0 <= j < front.len() && #[trigger] front[i].0@
                == #[trigger] front[j].0@ implies i == j by {
            assert(entries[i].0@ == entries[j].0@);
        }
        lemma_size(front);
        assert(!present(front, last)) by {
            if present(front, last) {
                let p = position(front, last);
                assert(entries[p].0@ == entries[n].0@);
            }
        }
        assert(as_map(entries).dom() =~= as_map(front).dom().insert(last)) by {
            assert forall|x: RouteView| #[trigger] as_map(entries).dom().contains(x) <==> as_map(
                front,
            ).dom().insert(last).contains(x) by {
                if present(entries, x) {
                    let p = position(entries, x);
                    if p < n {
                        assert(front[p].0@ == x);
                    }
                }
                if present(front, x) {
                    let p = position(front, x);
                    assert(entries[p].0@ == x);
                }
                if x == last {
                    assert(entries[n].0@ == x);
                }
            }
        }
    }
}

} // verus!
