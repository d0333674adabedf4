//! The estimate that a progress report shows.

use vstd::prelude::*;

verus! {

/// The time that the rest of the work takes at the pace of the work done so
/// far. There is no estimate before the first job is done.
pub open spec fn remaining_time(done: nat, total: nat, elapsed: nat) -> Option<nat> {
    if done == 0 || done > total {
        None
    } else {
        Some(((elapsed * (total - done)) / (done as int)) as nat)
    }
}

/// Estimates the time that the rest of the work takes, in the unit of
/// `elapsed`. It gives no estimate where there is none, or where the estimate
/// does not fit the result.
pub fn estimate_remaining(done: u64, total: u64, elapsed: u64) -> (estimate: Option<u64>)
    ensures
        estimate is Some <==> (remaining_time(done as nat, total as nat, elapsed as nat) matches Some(
            time,
        ) && time <= u64::MAX),
        estimate matches Some(time) ==> remaining_time(done as nat, total as nat, elapsed as nat)
            == Some(time as nat),
{
    if done == 0 || done > total {
        return None;
    }
    let rest: u128 = (total - done) as u128;
    let spent: u128 = elapsed as u128;
    assert(spent * rest <= u128::MAX) by (nonlinear_arith)
        requires
            spent <= u64::MAX,
            rest <= u64::MAX,
    ;
    let time: u128 = spent * rest / (done as u128);
    if time > u64::MAX as u128 {
        None
    } else {
        Some(time as u64)
    }
}

} // verus!
