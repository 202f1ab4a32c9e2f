//! How values are published: in what order, under which leases, and what a failure
//! leads to.

use crate::client::{ClientError, ScheduleLease};
use crate::db::error::{AdapterError, AdapterErrorView};
use crate::db::plan::{DatabaseValue, DatabaseValueView};
use crate::route::NamespaceContext;
use crate::text;
use vstd::prelude::*;

verus! {

/// The values of a namespace, in order.
pub open spec fn values_of(values: Seq<DatabaseValueView>, namespace: Seq<char>) -> Seq<
    DatabaseValueView,
>
    decreases values.len(),
{
    if values.len() == 0 {
        Seq::empty()
    } else if values.last().namespace == namespace {
        values_of(values.drop_last(), namespace).push(values.last())
    } else {
        values_of(values.drop_last(), namespace)
    }
}

/// The values of one namespace.
#[derive(Debug)]
pub struct Group {
    pub namespace: NamespaceContext,
    pub values: Vec<DatabaseValue>,
}

/// The groups are in the order of their namespaces, and hold the values of each
/// namespace in the order of the source.
pub open spec fn grouped(groups: Seq<Group>, values: Seq<DatabaseValueView>) -> bool {
    &&& forall|i: int, j: int|
        0 <= i < j < groups.len() ==> text::before(
            (#[trigger] groups[i]).namespace@,
            (#[trigger] groups[j]).namespace@,
        )
    &&& forall|i: int|
        0 <= i < groups.len() ==> crate::error::views((#[trigger] groups[i]).values@)
            == values_of(values, groups[i].namespace@)
    &&& forall|k: int|
        0 <= k < values.len() ==> exists|i: int|
            0 <= i < groups.len() && (#[trigger] groups[i]).namespace@ == (
            #[trigger] values[k]).namespace
}

fn place(groups: &Vec<Group>, namespace: &NamespaceContext) -> (r: (bool, usize))
    requires
        forall|i: int, j: int|
            0 <= i < j < groups.len() ==> text::before(
                (#[trigger] groups@[i]).namespace@,
                (#[trigger] groups@[j]).namespace@,
            ),
    ensures
        r.1 <= groups.len(),
        r.0 ==> r.1 < groups.len() && groups@[r.1 as int].namespace@ == namespace@,
        !r.0 ==> forall|i: int|
            0 <= i < groups.len() ==> (#[trigger] groups@[i]).namespace@ != namespace@ && (if i
                < r.1 {
                text::before(groups@[i].namespace@, namespace@)
            } else {
                text::before(namespace@, groups@[i].namespace@)
            }),
{
    let mut i: usize = 0;
    while i < groups.len()
        invariant
            i <= groups.len(),
            forall|a: int, b: int|
                0 <= a < b < groups.len() ==> text::before(
                    (#[trigger] groups@[a]).namespace@,
                    (#[trigger] groups@[b]).namespace@,
                ),
            forall|k: int|
                0 <= k < i ==> text::before((#[trigger] groups@[k]).namespace@, namespace@),
        decreases groups.len() - i,
    {
        if text::same(groups[i].namespace.as_str(), namespace.as_str()) {
            return (true, i);
        }
        if text::comes_before(namespace.as_str(), groups[i].namespace.as_str()) {
            assert forall|k: int| 0 <= k < groups.len() implies (#[trigger] groups@[k]).namespace@
                != namespace@ && (if k < i {
                text::before(groups@[k].namespace@, namespace@)
            } else {
                text::before(namespace@, groups@[k].namespace@)
            }) by {
                text::lemma_before(groups@[k].namespace@, namespace@);
                if k > i {
                    assert(text::before(
                        groups@[i as int].namespace@,
                        groups@[k].namespace@,
                    ));
                    text::lemma_before_transitive(
                        namespace@,
                        groups@[i as int].namespace@,
                        groups@[k].namespace@,
                    );
                }
            }
            return (false, i);
        }
        proof {
            text::lemma_before(groups@[i as int].namespace@, namespace@);
        }
        i += 1;
    }
    assert forall|k: int| 0 <= k < groups.len() implies (#[trigger] groups@[k]).namespace@
        != namespace@ by {
        text::lemma_before(groups@[k].namespace@, namespace@);
    }
    (false, i)
}

proof fn lemma_no_values(values: Seq<DatabaseValueView>, namespace: Seq<char>)
    requires
        forall|k: int| 0 <= k < values.len() ==> (#[trigger] values[k]).namespace != namespace,
    ensures
        values_of(values, namespace) == Seq::<DatabaseValueView>::empty(),
    decreases values.len(),
{
    if values.len() > 0 {
        assert(values[values.len() - 1].namespace != namespace);
        assert forall|k: int| 0 <= k < values.drop_last().len() implies (
        #[trigger] values.drop_last()[k]).namespace != namespace by {
            assert(values.drop_last()[k] == values[k]);
        }
        lemma_no_values(values.drop_last(), namespace);
    }
}

/// Groups values by their namespaces, for each of which a lease is needed.
pub fn by_namespace(values: Vec<DatabaseValue>) -> (r: Vec<Group>)
    ensures
        grouped(r@, crate::error::views(values@)),
{
    let ghost all = crate::error::views(values@);
    let mut groups: Vec<Group> = Vec::new();
    let mut i: usize = 0;
    assert(all.take(0) =~= Seq::empty());
    while i < values.len()
        invariant
            i <= values.len(),
            all == crate::error::views(values@),
            grouped(groups@, all.take(i as int)),
        decreases values.len() - i,
    {
        let ghost before = groups@;
        let ghost seen = all.take(i as int);
        let ghost next = all.take(i + 1);
        let value = values[i].clone();
        let ghost added = value@;
        proof {
            assert(next.drop_last() =~= seen);
            assert(next.last() == added);
        }
        let (found, at) = place(&groups, &value.namespace);
        if found {
            let mut group = Group {
                namespace: value.namespace.clone(),
                values: Vec::new(),
            };
            std::mem::swap(&mut group, &mut groups[at]);
            let ghost previous = crate::error::views(group.values@);
            group.values.push(value);
            assert(crate::error::views(group.values@) =~= previous.push(added));
            groups[at] = group;
            proof {
                assert(groups@ =~= before.update(at as int, group));
                assert(group.namespace@ == added.namespace);
                assert(grouped(groups@, next)) by {
                    assert forall|k: int| 0 <= k < groups@.len() implies crate::error::views(
                        (#[trigger] groups@[k]).values@,
                    ) == values_of(next, groups@[k].namespace@) by {
                        assert(crate::error::views(before[k].values@) == values_of(
                            seen,
                            before[k].namespace@,
                        ));
                        if k != at {
                            if k < at {
                                assert(text::before(
                                    before[k].namespace@,
                                    before[at as int].namespace@,
                                ));
                            } else {
                                assert(text::before(
                                    before[at as int].namespace@,
                                    before[k].namespace@,
                                ));
                            }
                            text::lemma_before(before[k].namespace@, added.namespace);
                            text::lemma_before(before[k].namespace@, before[k].namespace@);
                        }
                    }
                    assert forall|a: int, b: int| 0 <= a < b < groups@.len() implies text::before(
                        (#[trigger] groups@[a]).namespace@,
                        (#[trigger] groups@[b]).namespace@,
                    ) by {
                        assert(groups@[a].namespace@ == before[a].namespace@);
                        assert(groups@[b].namespace@ == before[b].namespace@);
                    }
                    assert forall|k: int| 0 <= k < next.len() implies exists|g: int|
                        0 <= g < groups@.len() && (#[trigger] groups@[g]).namespace@ == (
                        #[trigger] next[k]).namespace by {
                        if k < i {
                            assert(next[k] == seen[k]);
                            let g = choose|g: int|
                                0 <= g < before.len() && (#[trigger] before[g]).namespace@
                                    == seen[k].namespace;
                            assert(groups@[g].namespace@ == next[k].namespace);
                        } else {
                            assert(groups@[at as int].namespace@ == next[k].namespace);
                        }
                    }
                }
            }
        } else {
            let mut list: Vec<DatabaseValue> = Vec::new();
            let namespace = value.namespace.clone();
            list.push(value);
            assert(crate::error::views(list@) =~= seq![added]);
            let group = Group { namespace, values: list };
            groups.insert(at, group);
            proof {
                assert(groups@ =~= before.insert(at as int, group));
                assert(grouped(groups@, next)) by {
                    assert forall|k: int| 0 <= k < seen.len() implies (#[trigger] seen[k]).namespace
                        != added.namespace by {
                        let g = choose|g: int|
                            0 <= g < before.len() && (#[trigger] before[g]).namespace@
                                == seen[k].namespace;
                        assert(before[g].namespace@ != added.namespace);
                    }
                    lemma_no_values(seen, added.namespace);
                    assert(values_of(next, added.namespace) =~= seq![added]);
                    assert forall|k: int| 0 <= k < groups@.len() implies crate::error::views(
                        (#[trigger] groups@[k]).values@,
                    ) == values_of(next, groups@[k].namespace@) by {
                        if k < at {
                            assert(groups@[k] == before[k]);
                        } else if k > at {
                            assert(groups@[k] == before[k - 1]);
                        }
                    }
                    assert forall|a: int, b: int| 0 <= a < b < groups@.len() implies text::before(
                        (#[trigger] groups@[a]).namespace@,
                        (#[trigger] groups@[b]).namespace@,
                    ) by {
                        if a < at {
                            assert(groups@[a] == before[a]);
                        } else if a > at {
                            assert(groups@[a] == before[a - 1]);
                        }
                        if b < at {
                            assert(groups@[b] == before[b]);
                        } else if b > at {
                            assert(groups@[b] == before[b - 1]);
                        }
                    }
                    assert forall|k: int| 0 <= k < next.len() implies exists|g: int|
                        0 <= g < groups@.len() && (#[trigger] groups@[g]).namespace@ == (
                        #[trigger] next[k]).namespace by {
                        if k < i {
                            assert(next[k] == seen[k]);
                            let g = choose|g: int|
                                0 <= g < before.len() && (#[trigger] before[g]).namespace@
                                    == seen[k].namespace;
                            if g < at {
                                assert(groups@[g] == before[g]);
                            } else {
                                assert(groups@[g + 1] == before[g]);
                            }
                        } else {
                            assert(groups@[at as int].namespace@ == next[k].namespace);
                        }
                    }
                }
            }
        }
        i += 1;
    }
    assert(all.take(values.len() as int) =~= all);
    groups
}

/// A source of values, and where they are published: in the order of the source, so
/// that the last of several values of a route stays.
#[derive(Debug)]
pub struct Adapter<S, P> {
    pub source: S,
    pub publisher: P,
}

impl<S, P> Adapter<S, P> {
    pub fn new(source: S, publisher: P) -> (r: Self)
        ensures
            r.source == source,
            r.publisher == publisher,
    {
        Adapter { source, publisher }
    }
}

/// What follows on an attempt to publish a value.
#[derive(Debug)]
pub enum PublishStep {
    Finished(Result<(), AdapterError>),
    /// Connect anew, and try once more.
    Reconnect,
}

/// What follows on the first attempt to publish a value: one that failed with its
/// connection is made once more.
pub fn first_attempt(result: Result<(), ClientError>) -> (r: PublishStep)
    ensures
        match result {
            Ok(_) => r == PublishStep::Finished(Ok(())),
            Err(error) => if error@.is_connection_failure() {
                r is Reconnect
            } else {
                r == PublishStep::Finished(Err(AdapterError::Publish(error)))
            },
        },
{
    match result {
        Ok(_) => PublishStep::Finished(Ok(())),
        Err(error) => if error.is_connection_failure() {
            PublishStep::Reconnect
        } else {
            PublishStep::Finished(Err(AdapterError::Publish(error)))
        },
    }
}

/// What follows on the second attempt.
pub fn second_attempt(result: Result<(), ClientError>) -> (r: Result<(), AdapterError>)
    ensures
        r == (match result {
            Ok(_) => Ok(()),
            Err(error) => Err(AdapterError::Publish(error)),
        }),
{
    match result {
        Ok(_) => Ok(()),
        Err(error) => Err(AdapterError::Publish(error)),
    }
}

/// The text of failures: the position of each server with its error.
pub open spec fn failure_text(failures: Seq<(usize, AdapterError)>) -> Seq<char>
    decreases failures.len(),
{
    if failures.len() == 0 {
        Seq::empty()
    } else {
        let one = text::decimal(failures.last().0 as nat) + ": "@ + failures.last().1@.message();
        if failures.len() == 1 {
            one
        } else {
            failure_text(failures.drop_last()) + ", "@ + one
        }
    }
}

/// What publishing to every server comes to.
pub fn replicated(failures: &Vec<(usize, AdapterError)>) -> (r: Result<(), AdapterError>)
    ensures
        crate::db::error::adapter_outcome(r) == (if failures@.len() == 0 {
            Ok(())
        } else {
            Err(AdapterErrorView::Replication(failure_text(failures@)))
        }),
{
    if failures.len() == 0 {
        return Ok(());
    }
    let mut out = String::new();
    let mut i: usize = 0;
    assert(failures@.take(0) =~= Seq::empty());
    assert(out@ =~= Seq::<char>::empty());
    while i < failures.len()
        invariant
            i <= failures.len(),
            out@ == failure_text(failures@.take(i as int)),
        decreases failures.len() - i,
    {
        proof {
            assert(failures@.take(i + 1).drop_last() =~= failures@.take(i as int));
            assert(failures@.take(i + 1).last() == failures@[i as int]);
        }
        let position = text::number(failures[i].0 as u128);
        let message = failures[i].1.message();
        let one = text::joined3(position.as_str(), ": ", message.as_str());
        if i == 0 {
            out = one;
        } else {
            out = text::joined3(out.as_str(), ", ", one.as_str());
        }
        i += 1;
    }
    assert(failures@.take(failures.len() as int) =~= failures@);
    Err(AdapterError::Replication(out))
}

/// What an answer to a request for a lease means.
#[derive(Clone, Copy, Debug, PartialEq, Eq, Structural)]
pub enum LeaseStep {
    /// Publish through this connection.
    Own,
    /// Another adapter publishes here.
    Skip,
    /// The connection cannot be used: forget it.
    Forget,
}

/// What an answer to a request for a lease means.
pub fn lease_step(result: &Result<ScheduleLease, ClientError>) -> (r: LeaseStep)
    ensures
        r == (match *result {
            Ok(ScheduleLease::Acquired { .. }) => LeaseStep::Own,
            Ok(ScheduleLease::Unavailable) => LeaseStep::Skip,
            Err(_) => LeaseStep::Forget,
        }),
{
    match result {
        Ok(ScheduleLease::Acquired { .. }) => LeaseStep::Own,
        Ok(ScheduleLease::Unavailable) => LeaseStep::Skip,
        Err(_) => LeaseStep::Forget,
    }
}

/// What a delivery in groups needs next, or how many values it delivered.
#[derive(Debug)]
pub enum GroupStep {
    /// Ask every server for the lease of a group's namespace, the group by its
    /// position.
    Acquire { group: usize },
    Finished(Result<usize, AdapterError>),
}

/// A [`GroupStep`] as a mathematical value.
#[verifier::ext_equal]
pub enum GroupView {
    Acquire { group: nat },
    Finished(Result<nat, AdapterErrorView>),
}

/// What the delivery of a group needs next.
#[derive(Debug)]
pub enum DeliveryStep {
    /// Publish a value of the group to an owner of its lease, both by their
    /// positions.
    Publish { value: usize, owner: usize },
    /// The group is through: give its leases back, whatever came of it.
    Release(Result<usize, AdapterError>),
}

/// A [`DeliveryStep`] as a mathematical value.
#[verifier::ext_equal]
pub enum DeliveryView {
    Publish { value: nat, owner: nat },
    Release(Result<nat, AdapterErrorView>),
}

/// A number of values or an error, as a mathematical value.
pub open spec fn counted(result: Result<usize, AdapterError>) -> Result<nat, AdapterErrorView> {
    match result {
        Ok(count) => Ok(count as nat),
        Err(error) => Err(error@),
    }
}

impl View for GroupStep {
    type V = GroupView;

    open spec fn view(&self) -> GroupView {
        match self {
            GroupStep::Acquire { group } => GroupView::Acquire { group: *group as nat },
            GroupStep::Finished(result) => GroupView::Finished(counted(*result)),
        }
    }
}

impl View for DeliveryStep {
    type V = DeliveryView;

    open spec fn view(&self) -> DeliveryView {
        match self {
            DeliveryStep::Publish { value, owner } => DeliveryView::Publish {
                value: *value as nat,
                owner: *owner as nat,
            },
            DeliveryStep::Release(result) => DeliveryView::Release(counted(*result)),
        }
    }
}

/// Group `group` of a delivery of `count` values comes next; after the last one the
/// delivery is through.
pub open spec fn at_group(groups: nat, count: nat, group: nat) -> GroupView {
    if group < groups {
        GroupView::Acquire { group }
    } else {
        GroupView::Finished(Ok(count))
    }
}

/// Begins the delivery of values in groups.
pub fn delivery_started(groups: usize, count: usize) -> (r: GroupStep)
    ensures
        r@ == at_group(groups as nat, count as nat, 0),
{
    if groups > 0 {
        GroupStep::Acquire { group: 0 }
    } else {
        GroupStep::Finished(Ok(count))
    }
}

/// What follows on asking for the leases of a group: its first value goes to the
/// first owner. A server that leaves the namespace to another adapter gets nothing.
pub open spec fn first_delivery(values: nat, owners: nat) -> DeliveryView {
    if values > 0 && owners > 0 {
        DeliveryView::Publish { value: 0, owner: 0 }
    } else {
        DeliveryView::Release(Ok(values))
    }
}

/// Goes on after the leases of a group were asked for.
pub fn leases_acquired(values: usize, owners: usize) -> (r: DeliveryStep)
    ensures
        r@ == first_delivery(values as nat, owners as nat),
{
    if values > 0 && owners > 0 {
        DeliveryStep::Publish { value: 0, owner: 0 }
    } else {
        DeliveryStep::Release(Ok(values))
    }
}

/// What follows on publishing a value to an owner: the next owner gets it, then the
/// first one gets the next value. The first failure ends the group.
pub open spec fn next_delivery(
    values: nat,
    owners: nat,
    value: nat,
    owner: nat,
    failure: Option<AdapterErrorView>,
) -> DeliveryView {
    match failure {
        Some(error) => DeliveryView::Release(Err(error)),
        None => if owner + 1 < owners {
            DeliveryView::Publish { value, owner: owner + 1 }
        } else if value + 1 < values {
            DeliveryView::Publish { value: value + 1, owner: 0 }
        } else {
            DeliveryView::Release(Ok(values))
        },
    }
}

/// Goes on after a value was published to an owner.
pub fn value_published(
    values: usize,
    owners: usize,
    value: usize,
    owner: usize,
    result: Result<(), AdapterError>,
) -> (r: DeliveryStep)
    ensures
        r@ == next_delivery(
            values as nat,
            owners as nat,
            value as nat,
            owner as nat,
            match result {
                Ok(_) => None,
                Err(error) => Some(error@),
            },
        ),
{
    match result {
        Err(error) => DeliveryStep::Release(Err(error)),
        Ok(_) => if owner < owners && owners - owner > 1 {
            DeliveryStep::Publish { value, owner: owner + 1 }
        } else if value < values && values - value > 1 {
            DeliveryStep::Publish { value: value + 1, owner: 0 }
        } else {
            DeliveryStep::Release(Ok(values))
        },
    }
}

/// What follows on giving the leases of a group back: the next group, or the error
/// that ended this one.
pub open spec fn next_group(
    groups: nat,
    count: nat,
    group: nat,
    result: Result<nat, AdapterErrorView>,
) -> GroupView {
    match result {
        Ok(_) => at_group(groups, count, group + 1),
        Err(error) => GroupView::Finished(Err(error)),
    }
}

/// Goes on after the leases of a group were given back, with what came of the group.
pub fn leases_released(
    groups: usize,
    count: usize,
    group: usize,
    result: Result<usize, AdapterError>,
) -> (r: GroupStep)
    ensures
        r@ == next_group(groups as nat, count as nat, group as nat, counted(result)),
{
    match result {
        Err(error) => GroupStep::Finished(Err(error)),
        Ok(_) => if group < groups && groups - group > 1 {
            GroupStep::Acquire { group: group + 1 }
        } else {
            GroupStep::Finished(Ok(count))
        },
    }
}

/// Without a failure every value of a group is published to every owner once, value
/// by value in the order of the source: each step is the next one of all of them, and
/// the group is through with the last.
pub proof fn publications_reach_every_owner(values: nat, owners: nat, value: nat, owner: nat)
    requires
        value < values,
        owner < owners,
    ensures
        match next_delivery(values, owners, value, owner, None) {
            DeliveryView::Publish { value: v, owner: o } => v < values && o < owners && v * owners
                + o == value * owners + owner + 1,
            DeliveryView::Release(result) => result == Ok::<nat, AdapterErrorView>(values) && value
                * owners + owner + 1 == values * owners,
        },
{
    assert((value + 1) * owners == value * owners + owners) by (nonlinear_arith);
}

/// The publications of a group from that of `value` to `owner` on, and what came of
/// the group, where publishing a value to an owner fails as `failures` says.
pub open spec fn published(
    values: nat,
    owners: nat,
    value: nat,
    owner: nat,
    failures: spec_fn(nat, nat) -> Option<AdapterErrorView>,
) -> (Seq<(nat, nat)>, Result<nat, AdapterErrorView>)
    decreases values - value, owners - owner,
{
    if value >= values || owner >= owners {
        (Seq::empty(), Ok(values))
    } else {
        match next_delivery(values, owners, value, owner, failures(value, owner)) {
            DeliveryView::Publish { value: v, owner: o } => {
                let rest = published(values, owners, v, o, failures);
                (seq![(value, owner)] + rest.0, rest.1)
            },
            DeliveryView::Release(result) => (seq![(value, owner)], result),
        }
    }
}

proof fn lemma_published(
    values: nat,
    owners: nat,
    value: nat,
    owner: nat,
    failures: spec_fn(nat, nat) -> Option<AdapterErrorView>,
)
    requires
        value < values,
        owner < owners,
    ensures
        ({
            let (made, result) = published(values, owners, value, owner, failures);
            let first = value * owners + owner;
            &&& made.len() > 0
            &&& forall|k: int|
                0 <= k < made.len() ==> (#[trigger] made[k]).0 < values && made[k].1 < owners
                    && made[k].0 * owners + made[k].1 == first + k
            &&& forall|k: int|
                0 <= k < made.len() - 1 ==> failures(
                    (#[trigger] made[k]).0,
                    made[k].1,
                ) is None
            &&& match failures(made.last().0, made.last().1) {
                Some(error) => result == Err::<nat, AdapterErrorView>(error),
                None => result == Ok::<nat, AdapterErrorView>(values) && first + made.len()
                    == values * owners,
            }
        }),
    decreases values - value, owners - owner,
{
    publications_reach_every_owner(values, owners, value, owner);
    let (made, result) = published(values, owners, value, owner, failures);
    if let DeliveryView::Publish { value: v, owner: o } = next_delivery(
        values,
        owners,
        value,
        owner,
        failures(value, owner),
    ) {
        lemma_published(values, owners, v, o, failures);
        let rest = published(values, owners, v, o, failures).0;
        assert(made.len() == rest.len() + 1);
        assert(made.last() == rest.last());
        assert forall|k: int| 0 <= k < made.len() implies (#[trigger] made[k]).0 < values
            && made[k].1 < owners && made[k].0 * owners + made[k].1 == value * owners + owner
            + k by {
            if k > 0 {
                assert(made[k] == rest[k - 1]);
            }
        }
        assert forall|k: int| 0 <= k < made.len() - 1 implies failures(
            (#[trigger] made[k]).0,
            made[k].1,
        ) is None by {
            if k > 0 {
                assert(made[k] == rest[k - 1]);
            }
        }
    }
}

/// The values of a group go out in the order of the source, each to every owner before
/// the next one, up to the first failure, which is what comes of the group. Without
/// one all of them go out, and their number comes of it.
pub proof fn publications_stop_at_the_first_failure(
    values: nat,
    owners: nat,
    failures: spec_fn(nat, nat) -> Option<AdapterErrorView>,
)
    requires
        values > 0,
        owners > 0,
    ensures
        first_delivery(values, owners) == (DeliveryView::Publish { value: 0, owner: 0 }),
        ({
            let (made, result) = published(values, owners, 0, 0, failures);
            &&& made.len() > 0
            &&& forall|k: int|
                0 <= k < made.len() ==> (#[trigger] made[k]).1 < owners && made[k].0 * owners
                    + made[k].1 == k
            &&& forall|k: int|
                0 <= k < made.len() - 1 ==> failures(
                    (#[trigger] made[k]).0,
                    made[k].1,
                ) is None
            &&& match failures(made.last().0, made.last().1) {
                Some(error) => result == Err::<nat, AdapterErrorView>(error),
                None => result == Ok::<nat, AdapterErrorView>(values) && made.len() == values
                    * owners,
            }
        }),
{
    lemma_published(values, owners, 0, 0, failures);
}

/// How publishing a value of a group to an owner fails.
pub open spec fn group_failures(
    failures: spec_fn(nat, nat, nat) -> Option<AdapterErrorView>,
    group: nat,
) -> spec_fn(nat, nat) -> Option<AdapterErrorView> {
    |value: nat, owner: nat| failures(group, value, owner)
}

/// What comes of a group, by the number of its values and of the owners of its lease.
pub open spec fn group_result(
    groups: Seq<(nat, nat)>,
    failures: spec_fn(nat, nat, nat) -> Option<AdapterErrorView>,
    group: nat,
) -> Result<nat, AdapterErrorView> {
    match first_delivery(groups[group as int].0, groups[group as int].1) {
        DeliveryView::Publish { value, owner } => published(
            groups[group as int].0,
            groups[group as int].1,
            value,
            owner,
            group_failures(failures, group),
        ).1,
        DeliveryView::Release(result) => result,
    }
}

/// How many groups were leased and given back when a delivery ended, which began with
/// `group`, and what came of it.
pub open spec fn delivered(
    groups: Seq<(nat, nat)>,
    count: nat,
    group: nat,
    failures: spec_fn(nat, nat, nat) -> Option<AdapterErrorView>,
) -> (nat, Result<nat, AdapterErrorView>)
    decreases groups.len() - group,
{
    match at_group(groups.len(), count, group) {
        GroupView::Finished(result) => (group, result),
        GroupView::Acquire { group: g } => match next_group(
            groups.len(),
            count,
            g,
            group_result(groups, failures, g),
        ) {
            GroupView::Acquire { group: next } => delivered(groups, count, next, failures),
            GroupView::Finished(result) => (g + 1, result),
        },
    }
}

proof fn lemma_delivered(
    groups: Seq<(nat, nat)>,
    count: nat,
    group: nat,
    failures: spec_fn(nat, nat, nat) -> Option<AdapterErrorView>,
)
    requires
        group <= groups.len(),
    ensures
        ({
            let (done, result) = delivered(groups, count, group, failures);
            &&& group <= done <= groups.len()
            &&& forall|g: nat|
                group <= g && g + 1 < done ==> #[trigger] group_result(groups, failures, g) is Ok
            &&& match result {
                Ok(n) => n == count && done == groups.len() && (done > group ==> group_result(
                    groups,
                    failures,
                    (done - 1) as nat,
                ) is Ok),
                Err(error) => done > group && group_result(groups, failures, (done - 1) as nat)
                    == Err::<nat, AdapterErrorView>(error),
            }
        }),
    decreases groups.len() - group,
{
    if group < groups.len() {
        let came = group_result(groups, failures, group);
        if came is Ok && group + 1 < groups.len() {
            lemma_delivered(groups, count, group + 1, failures);
        }
    }
}

/// The groups of a delivery are leased, published and given back one after the other,
/// up to the first one that fails, whose error ends the delivery. Without a failure
/// the delivery ends after the last group, with the number of all values.
pub proof fn deliveries_stop_at_the_first_failed_group(
    groups: Seq<(nat, nat)>,
    count: nat,
    failures: spec_fn(nat, nat, nat) -> Option<AdapterErrorView>,
)
    ensures
        ({
            let (done, result) = delivered(groups, count, 0, failures);
            &&& done <= groups.len()
            &&& forall|g: nat|
                g + 1 < done ==> #[trigger] group_result(groups, failures, g) is Ok
            &&& match result {
                Ok(n) => n == count && done == groups.len() && forall|g: nat|
                    g < done ==> #[trigger] group_result(groups, failures, g) is Ok,
                Err(error) => done > 0 && group_result(groups, failures, (done - 1) as nat)
                    == Err::<nat, AdapterErrorView>(error),
            }
        }),
{
    lemma_delivered(groups, count, 0, failures);
    let (done, result) = delivered(groups, count, 0, failures);
    assert forall|g: nat| result is Ok && g < done implies #[trigger] group_result(
        groups,
        failures,
        g,
    ) is Ok by {
        if g + 1 == done {
            assert(g == (done - 1) as nat);
        }
    }
}

/// No value is lost or doubled by grouping: as many values of a namespace go out as
/// came in, in the same order, so the last one written to a route is the last one
/// read for it.
pub proof fn grouping_keeps_the_order(
    groups: Seq<Group>,
    values: Seq<DatabaseValueView>,
    k: int,
)
    requires
        grouped(groups, values),
        0 <= k < values.len(),
    ensures
        exists|i: int|
            0 <= i < groups.len() && (#[trigger] groups[i]).namespace@ == values[k].namespace
                && crate::error::views(groups[i].values@) == values_of(
                values,
                values[k].namespace,
            ) && crate::error::views(groups[i].values@).contains(values[k]),
{
    let i = choose|i: int|
        0 <= i < groups.len() && (#[trigger] groups[i]).namespace@ == values[k].namespace;
    lemma_values_contain(values, values[k].namespace, k);
    assert(crate::error::views(groups[i].values@).contains(values[k]));
}

proof fn lemma_values_contain(values: Seq<DatabaseValueView>, namespace: Seq<char>, k: int)
    requires
        0 <= k < values.len(),
        values[k].namespace == namespace,
    ensures
        values_of(values, namespace).contains(values[k]),
    decreases values.len(),
{
    let rest = values.drop_last();
    if k < rest.len() {
        assert(rest[k] == values[k]);
        lemma_values_contain(rest, namespace, k);
        let before = values_of(rest, namespace);
        let j = choose|j: int| 0 <= j < before.len() && before[j] == values[k];
        assert(values_of(values, namespace)[j] == values[k]);
    } else {
        let all = values_of(values, namespace);
        assert(all[all.len() - 1] == values[k]);
    }
}

} // verus!
