//! When fetched data is due for a refresh.
use vstd::prelude::*;

verus! {

/// Whether data that has aged `elapsed` seconds has outlived its time to
/// live of `ttl` seconds: strictly more than `ttl` seconds have passed.
pub fn is_stale(elapsed: i64, ttl: i64) -> (r: bool)
    ensures
        r == (elapsed > ttl),
{
    elapsed > ttl
}

} // verus!
