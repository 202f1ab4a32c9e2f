//! Stored values, and how an ordered composition of stores answers.

use crate::duration::Duration;
use crate::error::Error;
use crate::json::{JsonView, Value};
use crate::route::Key;
use vstd::prelude::*;

verus! {

/// A value as a store holds it, with the time it has left.
#[derive(Debug)]
pub struct StoredValue {
    pub value: Value,
    pub remaining_ttl: Option<Duration>,
}

/// A [`StoredValue`] as a mathematical value; times are in nanoseconds.
#[verifier::ext_equal]
pub struct StoredView {
    pub value: JsonView,
    pub remaining_ttl: Option<nat>,
}

impl View for StoredValue {
    type V = StoredView;

    open spec fn view(&self) -> StoredView {
        StoredView { value: self.value@, remaining_ttl: crate::error::inner(self.remaining_ttl) }
    }
}

/// The whole seconds that cover a time.
pub open spec fn covering_seconds(nanos: nat) -> u64 {
    let seconds = nanos / 1_000_000_000;
    if nanos % 1_000_000_000 == 0 {
        seconds as u64
    } else if seconds >= u64::MAX {
        u64::MAX
    } else {
        (seconds + 1) as u64
    }
}

/// The whole seconds that cover a time.
pub fn duration_to_seconds(duration: &Duration) -> (r: u64)
    ensures
        r == covering_seconds(duration@),
{
    let nanos: u128 = duration.as_nanos();
    let seconds: u64 = duration.as_secs();
    if nanos % 1_000_000_000 == 0 {
        seconds
    } else {
        seconds.saturating_add(1)
    }
}

/// The seconds of an optional time.
pub open spec fn optional_seconds(nanos: Option<nat>) -> Option<u64> {
    match nanos {
        Some(nanos) => Some(covering_seconds(nanos)),
        None => None,
    }
}

/// The seconds of an optional time.
pub fn ttl_seconds(duration: &Option<Duration>) -> (r: Option<u64>)
    ensures
        r == optional_seconds(crate::error::inner(*duration)),
{
    match duration {
        Some(duration) => Some(duration_to_seconds(duration)),
        None => None,
    }
}

/// What an ordered composition of stores does next.
#[derive(Debug)]
pub enum Progress<T> {
    /// Ask the store at the position.
    Ask(usize),
    Finished(Result<T, Error>),
}

/// An ordered, in-process composition of stores. Reads return the first hit;
/// writes fan out in order and stop at the first failure.
#[derive(Clone, Copy, Debug)]
pub struct CompositeStore {
    stores: usize,
}

impl View for CompositeStore {
    type V = nat;

    closed spec fn view(&self) -> nat {
        self.stores as nat
    }
}

/// Asks the store after the one at `position`, or finishes with `result`.
pub open spec fn after_store<T>(stores: nat, position: usize, result: T) -> Progress<T> {
    if position + 1 < stores {
        Progress::Ask((position + 1) as usize)
    } else {
        Progress::Finished(Ok(result))
    }
}

/// How a read goes on after the store at `position` answered.
pub open spec fn read_step(
    stores: nat,
    position: usize,
    result: Result<Option<StoredValue>, Error>,
) -> Progress<Option<StoredValue>> {
    if result == Ok::<Option<StoredValue>, Error>(None) {
        after_store(stores, position, None)
    } else {
        Progress::Finished(result)
    }
}

/// How a write goes on after the store at `position` answered.
pub open spec fn write_step(stores: nat, position: usize, result: Result<(), Error>) -> Progress<()> {
    if result is Ok {
        after_store(stores, position, ())
    } else {
        Progress::Finished(result)
    }
}

impl CompositeStore {
    /// A composition of so many stores.
    pub fn new(stores: usize) -> (r: Self)
        ensures
            r@ == stores,
    {
        CompositeStore { stores }
    }

    fn proceed<T>(&self, position: usize, result: T) -> (r: Progress<T>)
        ensures
            r == after_store(self@, position, result),
    {
        if self.stores > 0 && position < self.stores - 1 {
            Progress::Ask(position + 1)
        } else {
            Progress::Finished(Ok(result))
        }
    }

    /// Begins an operation that comes to `empty` where there are no stores.
    pub fn begin<T>(&self, empty: T) -> (r: Progress<T>)
        ensures
            r == (if self@ > 0 {
                Progress::Ask(0)
            } else {
                Progress::Finished(Ok(empty))
            }),
    {
        if self.stores > 0 {
            Progress::Ask(0)
        } else {
            Progress::Finished(Ok(empty))
        }
    }

    /// Goes on with a read after the store at `position` answered.
    pub fn get(&self, position: usize, result: Result<Option<StoredValue>, Error>) -> (r: Progress<
        Option<StoredValue>,
    >)
        ensures
            r == read_step(self@, position, result),
    {
        match result {
            Ok(None) => self.proceed(position, None),
            result => Progress::Finished(result),
        }
    }

    /// Goes on with a write or a move after the store at `position` made it.
    pub fn set(&self, position: usize, result: Result<(), Error>) -> (r: Progress<()>)
        ensures
            r == write_step(self@, position, result),
    {
        match result {
            Ok(_) => self.proceed(position, ()),
            Err(error) => Progress::Finished(Err(error)),
        }
    }

    /// Goes on with a deletion or a count after the store at `position` gave its
    /// number; `total` is the sum before.
    pub fn count(&self, position: usize, total: u64, result: Result<u64, Error>) -> (r: (
        u64,
        Progress<u64>,
    ))
        requires
            result matches Ok(n) ==> total + n <= u64::MAX,
        ensures
            match result {
                Ok(n) => r.0 == total + n && r.1 == after_store(
                    self@,
                    position,
                    (total + n) as u64,
                ),
                Err(error) => r == (total, Progress::<u64>::Finished(Err(error))),
            },
    {
        match result {
            Ok(n) => (total + n, self.proceed(position, total + n)),
            Err(error) => (total, Progress::Finished(Err(error))),
        }
    }

    /// Goes on with a scan after the store at `position` answered: the first that
    /// has anything is the one that counts.
    pub fn scan(&self, position: usize, result: Result<Vec<(Key, StoredValue)>, Error>) -> (r:
        Progress<Vec<(Key, StoredValue)>>)
        ensures
            match result {
                Ok(values) if values@.len() == 0 => r == after_store(self@, position, values),
                result => r == Progress::<Vec<(Key, StoredValue)>>::Finished(result),
            },
    {
        match result {
            Ok(values) => if values.len() == 0 {
                self.proceed(position, values)
            } else {
                Progress::Finished(Ok(values))
            },
            Err(error) => Progress::Finished(Err(error)),
        }
    }
}

/// What a read of stores that answer with `results` comes to, from `position` on.
pub open spec fn read_through(
    results: Seq<Result<Option<StoredValue>, Error>>,
    position: usize,
) -> Result<Option<StoredValue>, Error>
    decreases results.len() - position,
{
    if position >= results.len() {
        Ok(None)
    } else {
        match read_step(results.len(), position, results[position as int]) {
            Progress::Ask(next) => if next > position {
                read_through(results, next)
            } else {
                Ok(None)
            },
            Progress::Finished(result) => result,
        }
    }
}

/// A read comes to the first answer that is not an absence: the value of the
/// first store that has one, or the error of one before it.
pub proof fn reads_return_the_first_hit(
    results: Seq<Result<Option<StoredValue>, Error>>,
    position: usize,
    hit: int,
)
    requires
        position <= hit <= results.len() <= usize::MAX,
        forall|i: int|
            position <= i < hit ==> #[trigger] results[i] == Ok::<Option<StoredValue>, Error>(None),
        hit < results.len() ==> results[hit] != Ok::<Option<StoredValue>, Error>(None),
    ensures
        read_through(results, position) == (if hit < results.len() {
            results[hit]
        } else {
            Ok(None)
        }),
    decreases hit - position,
{
    if position < hit {
        assert(results[position as int] == Ok::<Option<StoredValue>, Error>(None));
        if position + 1 < results.len() {
            reads_return_the_first_hit(results, (position + 1) as usize, hit);
        }
    }
}

/// How many stores are asked to make a change that they answer with `results`,
/// from `position` on, and what it comes to.
pub open spec fn write_through(results: Seq<Result<(), Error>>, position: usize) -> (
    nat,
    Result<(), Error>,
)
    decreases results.len() - position,
{
    if position >= results.len() {
        (0, Ok(()))
    } else {
        match write_step(results.len(), position, results[position as int]) {
            Progress::Ask(next) => if next > position {
                let (asked, result) = write_through(results, next);
                (asked + 1, result)
            } else {
                (1, Ok(()))
            },
            Progress::Finished(result) => (1, result),
        }
    }
}

/// A write reaches the stores in order, and none after the first that fails, whose
/// error it comes to.
pub proof fn writes_stop_at_the_first_failure(
    results: Seq<Result<(), Error>>,
    position: usize,
    failed: int,
)
    requires
        position <= failed <= results.len() <= usize::MAX,
        forall|i: int| position <= i < failed ==> (#[trigger] results[i]) is Ok,
        failed < results.len() ==> results[failed] is Err,
    ensures
        write_through(results, position) == (if failed < results.len() {
            ((failed - position + 1) as nat, results[failed])
        } else {
            ((failed - position) as nat, Ok(()))
        }),
    decreases failed - position,
{
    if position < failed {
        assert(results[position as int] is Ok);
        if position + 1 < results.len() {
            writes_stop_at_the_first_failure(results, (position + 1) as usize, failed);
        }
    }
}

} // verus!
