//! The rules of the markers of missing values: which are made, and how long each is
//! kept.
//!
//! The cache of the markers is around this module. What removes markers is an
//! [`Invalidation`](crate::outcome::Invalidation).

use crate::duration::Duration;
use vstd::prelude::*;

verus! {

/// A marker of a missing value.
#[derive(Clone, Copy, Debug)]
pub struct Marker {
    pub ttl: Duration,
}

/// The marker of a value that is missing for a time, if any is made: none for no
/// time.
pub fn marker(ttl: Duration) -> (r: Option<Marker>)
    ensures
        r == (if ttl@ == 0 {
            None
        } else {
            Some(Marker { ttl })
        }),
{
    if ttl.is_zero() {
        None
    } else {
        Some(Marker { ttl })
    }
}

/// How long the cache keeps its markers. The times are relative, so that the longest
/// one does not overflow.
#[derive(Clone, Copy, Debug)]
pub struct MarkerExpiry;

impl MarkerExpiry {
    /// A marker that is created is kept for its time.
    pub fn expire_after_create(&self, value: &Marker) -> (r: Option<Duration>)
        ensures
            r == Some(value.ttl),
    {
        Some(value.ttl)
    }

    /// Reading a marker does not change how long it is kept.
    pub fn expire_after_read(&self, _value: &Marker, duration_until_expiry: Option<Duration>) -> (r:
        Option<Duration>)
        ensures
            r == duration_until_expiry,
    {
        duration_until_expiry
    }

    /// A marker that is made anew is kept for its new time.
    pub fn expire_after_update(&self, value: &Marker) -> (r: Option<Duration>)
        ensures
            r == Some(value.ttl),
    {
        Some(value.ttl)
    }
}

} // verus!
