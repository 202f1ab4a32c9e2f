//! Lists in the order of their names.

use crate::text;
use vstd::prelude::*;

verus! {

/// What has a name by which it is ordered.
pub trait Named: View {
    /// The name of an item.
    spec fn named(item: Self::V) -> Seq<char>;

    /// The name of the item.
    fn name(&self) -> (r: &str)
        ensures
            r@ == Self::named(self@),
    ;
}

impl Named for String {
    open spec fn named(item: Seq<char>) -> Seq<char> {
        item
    }

    fn name(&self) -> (r: &str) {
        self.as_str()
    }
}

/// Where a name goes among items, from position `i` on: before the first that comes
/// after it.
pub open spec fn place<T: Named>(items: Seq<T::V>, name: Seq<char>, i: int) -> int
    decreases items.len() - i,
{
    if i < 0 || i >= items.len() {
        items.len() as int
    } else if text::before(name, T::named(items[i])) {
        i
    } else {
        place::<T>(items, name, i + 1)
    }
}

/// The items in the order of their names; items of one name stay in their order.
pub open spec fn arranged<T: Named>(items: Seq<T::V>) -> Seq<T::V>
    decreases items.len(),
{
    if items.len() == 0 {
        items
    } else {
        let rest = arranged::<T>(items.drop_last());
        rest.insert(place::<T>(rest, T::named(items.last()), 0), items.last())
    }
}

/// No item comes before an earlier one.
pub open spec fn in_order<T: Named>(items: Seq<T::V>) -> bool {
    forall|i: int, j: int|
        0 <= i < j < items.len() ==> !text::before(
            T::named(#[trigger] items[j]),
            T::named(#[trigger] items[i]),
        )
}

proof fn lemma_place<T: Named>(items: Seq<T::V>, name: Seq<char>, i: int)
    requires
        0 <= i <= items.len(),
    ensures
        i <= place::<T>(items, name, i) <= items.len(),
        forall|k: int|
            i <= k < place::<T>(items, name, i) ==> !text::before(
                name,
                T::named(#[trigger] items[k]),
            ),
        place::<T>(items, name, i) < items.len() ==> text::before(
            name,
            T::named(items[place::<T>(items, name, i)]),
        ),
    decreases items.len() - i,
{
    if i < items.len() && !text::before(name, T::named(items[i])) {
        lemma_place::<T>(items, name, i + 1);
    }
}

/// Arranged items are in order, and are the same items.
pub proof fn arranging_orders<T: Named>(items: Seq<T::V>)
    ensures
        in_order::<T>(arranged::<T>(items)),
        arranged::<T>(items).to_multiset() =~= items.to_multiset(),
        arranged::<T>(items).len() == items.len(),
    decreases items.len(),
{
    if items.len() > 0 {
        let rest = arranged::<T>(items.drop_last());
        let name = T::named(items.last());
        let at = place::<T>(rest, name, 0);
        let all = arranged::<T>(items);
        arranging_orders::<T>(items.drop_last());
        lemma_place::<T>(rest, name, 0);
        assert forall|i: int, j: int| 0 <= i < j < all.len() implies !text::before(
            T::named(#[trigger] all[j]),
            T::named(#[trigger] all[i]),
        ) by {
            let a = T::named(all[i]);
            let b = T::named(all[j]);
            if j == at {
                assert(all[i] == rest[i]);
            } else if i == at {
                assert(all[j] == rest[j - 1]);
                let first = T::named(rest[at]);
                if text::before(b, a) {
                    if j - 1 == at {
                        text::lemma_before(a, b);
                    } else {
                        text::lemma_before_transitive(b, a, first);
                        assert(!text::before(T::named(rest[j - 1]), T::named(rest[at])));
                    }
                }
            } else {
                let x = if i < at {
                    i
                } else {
                    i - 1
                };
                let y = if j < at {
                    j
                } else {
                    j - 1
                };
                assert(all[i] == rest[x] && all[j] == rest[y]);
            }
        }
        vstd::seq_lib::to_multiset_insert(rest, at, items.last());
        assert(items =~= items.drop_last().push(items.last()));
        items.drop_last().to_multiset_ensures();
        rest.to_multiset_ensures();
    }
}

fn place_of<T: Named>(items: &Vec<T>, name: &str) -> (r: usize)
    ensures
        r == place::<T>(crate::error::views(items@), name@, 0),
        r <= items.len(),
{
    let mut i: usize = 0;
    while i < items.len()
        invariant
            i <= items.len(),
            place::<T>(crate::error::views(items@), name@, 0) == place::<T>(crate::error::views(items@), name@, i as int),
        decreases items.len() - i,
    {
        assert(crate::error::views(items@)[i as int] == items@[i as int]@);
        if text::comes_before(name, items[i].name()) {
            return i;
        }
        i += 1;
    }
    i
}

/// Puts items in the order of their names.
pub fn arrange<T: Named>(items: Vec<T>) -> (r: Vec<T>)
    ensures
        crate::error::views(r@) == arranged::<T>(crate::error::views(items@)),
{
    let ghost all = crate::error::views(items@);
    let mut left = text::reversed(items);
    let ghost turned = left@;
    let mut out: Vec<T> = Vec::new();
    assert(crate::error::views(out@) =~= all.take(0));
    while left.len() > 0
        invariant
            left.len() <= all.len(),
            turned.len() == all.len(),
            left@ == turned.take(left.len() as int),
            forall|i: int| 0 <= i < all.len() ==> #[trigger] turned[i]@ == all[all.len() - 1 - i],
            crate::error::views(out@) == arranged::<T>(all.take(all.len() - left.len())),
        decreases left.len(),
    {
        let ghost n = all.len() - left.len();
        let ghost done = out@;
        if let Some(item) = left.pop() {
            let at = place_of(&out, item.name());
            assert(item@ == all[n]);
            assert(all.take(n + 1).drop_last() =~= all.take(n));
            assert(all.take(n + 1).last() == all[n]);
            let ghost shown = item@;
            out.insert(at, item);
            assert(crate::error::views(out@) =~= crate::error::views(done).insert(at as int, shown));
        }
        assert(left@ =~= turned.take(left.len() as int));
    }
    assert(all.take(all.len() as int) =~= all);
    out
}

} // verus!
