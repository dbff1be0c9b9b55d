//! When the averages are sent to the database.
//!
//! They are sent once per interval, at the start of an interval, and each
//! batch is dated with the start of the interval it is sent in.  Intervals
//! are counted from instant 0.

use vstd::prelude::*;

verus! {

/// The start of the interval that `timestamp` lies in.
pub open spec fn interval_start(timestamp: u64, interval: u64) -> int {
    timestamp - timestamp % interval
}

/// How long to wait at `now` for the next interval to start: a full interval
/// when one starts at `now`.
pub fn wait_secs(now: u64, interval: u64) -> (wait: u64)
    requires
        interval > 0,
    ensures
        wait == interval_start(now, interval) + interval - now,
        0 < wait <= interval,
{
    interval - now % interval
}

/// The instant to date a batch with that is sent at `timestamp`: the start
/// of the interval that `timestamp` lies in.
pub fn timestamp_start(timestamp: u64, interval: u64) -> (start: u64)
    requires
        interval > 0,
    ensures
        start == interval_start(timestamp, interval),
        start % interval == 0,
        start <= timestamp < start + interval,
{
    proof {
        vstd::arithmetic::div_mod::lemma_fundamental_div_mod(timestamp as int, interval as int);
        vstd::arithmetic::div_mod::lemma_mod_multiples_basic(
            timestamp as int / interval as int,
            interval as int,
        );
        assert(timestamp - timestamp % interval == (timestamp as int / interval as int) * interval)
            by (nonlinear_arith)
            requires
                timestamp as int == interval * (timestamp as int / interval as int) + timestamp as int
                    % interval as int,
        ;
    }
    timestamp - timestamp % interval
}

} // verus!
