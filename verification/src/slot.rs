//! Conversion between wall-clock timestamps and slots.
//!
//! Time is counted in milliseconds. From the genesis instant on it is cut into
//! slots of equal length, numbered from zero. The threads take the slots in
//! turn, thread 0 first: slot number `n` belongs to period `n / thread_count`
//! and thread `n % thread_count`.

use vstd::prelude::*;
use vstd::arithmetic::div_mod::lemma_fundamental_div_mod_converse;
use vstd::arithmetic::div_mod::lemma_fundamental_div_mod;
use vstd::arithmetic::div_mod::lemma_div_pos_is_pos;
use vstd::arithmetic::mul::lemma_mul_inequality;
use vstd::arithmetic::mul::lemma_mul_is_commutative;
use crate::error::ApiError;

verus! {

/// The production opportunity of one block: a period and a thread.
#[derive(Clone, Copy, Debug, PartialEq, Eq, Hash, Structural)]
pub struct Slot {
    pub period: u64,
    pub thread: u8,
}

impl Slot {
    /// Order of slots: by period, then by thread.
    pub open spec fn spec_lt(self, other: Slot) -> bool {
        self.period < other.period || (self.period == other.period && self.thread < other.thread)
    }

    /// Whether `self` comes before `other`, by period and then by thread.
    pub fn lt(&self, other: &Slot) -> (b: bool)
        ensures
            b == self.spec_lt(*other),
    {
        self.period < other.period || (self.period == other.period && self.thread < other.thread)
    }

    /// The number of the slot, counted from the first slot of period 0.
    pub open spec fn index(self, thread_count: u8) -> int {
        self.period * thread_count + self.thread
    }

    /// The instant at which the slot begins, as an unbounded integer.
    pub open spec fn start(self, genesis_time: u64, slot_duration: u64, thread_count: u8) -> int {
        genesis_time + self.index(thread_count) * slot_duration
    }
}

/// The timestamp of a slot: the instant at which it begins, or the largest
/// timestamp where that instant lies beyond it.
pub open spec fn spec_time_of(
    slot: Slot,
    genesis_time: u64,
    slot_duration: u64,
    thread_count: u8,
) -> int {
    let start = slot.start(genesis_time, slot_duration, thread_count);
    if start <= u64::MAX {
        start
    } else {
        u64::MAX as int
    }
}

/// The slot that is running at `timestamp`, for a timestamp not before genesis.
pub open spec fn spec_slot_of(
    timestamp: u64,
    genesis_time: u64,
    slot_duration: u64,
    thread_count: u8,
) -> Slot {
    let n = (timestamp - genesis_time) / (slot_duration as int);
    Slot { period: (n / (thread_count as int)) as u64, thread: (n % (thread_count as int)) as u8 }
}

proof fn lemma_product_grows(a: int, d: int)
    by (nonlinear_arith)
    requires
        0 <= a,
        1 <= d,
    ensures
        a <= a * d,
{
}

/// The timestamp at which `slot` begins. The result saturates at `u64::MAX`.
pub fn time_of(slot: Slot, genesis_time: u64, slot_duration: u64, thread_count: u8) -> (t: u64)
    ensures
        t == spec_time_of(slot, genesis_time, slot_duration, thread_count),
{
    if slot_duration == 0 {
        assert(slot.index(thread_count) * 0 == 0);
        return genesis_time;
    }
    proof {
        lemma_product_grows(slot.index(thread_count), slot_duration as int);
    }
    let threads: u64 = thread_count as u64;
    let thread: u64 = slot.thread as u64;
    let index: u64 = match slot.period.checked_mul(threads) {
        None => {
            return u64::MAX;
        },
        Some(base) => match base.checked_add(thread) {
            None => {
                return u64::MAX;
            },
            Some(index) => index,
        },
    };
    match index.checked_mul(slot_duration) {
        None => u64::MAX,
        Some(offset) => match genesis_time.checked_add(offset) {
            None => u64::MAX,
            Some(t) => t,
        },
    }
}

/// The slot that is running at `timestamp`.
///
/// Fails with `InvalidTime` exactly when `timestamp` lies before genesis.
pub fn slot_of(timestamp: u64, genesis_time: u64, slot_duration: u64, thread_count: u8) -> (r:
    Result<Slot, ApiError>)
    requires
        slot_duration > 0,
        thread_count > 0,
    ensures
        timestamp < genesis_time ==> r == Err::<Slot, ApiError>(ApiError::InvalidTime),
        timestamp >= genesis_time ==> r == Ok::<Slot, ApiError>(
            spec_slot_of(timestamp, genesis_time, slot_duration, thread_count),
        ),
{
    if timestamp < genesis_time {
        return Err(ApiError::InvalidTime);
    }
    let n: u64 = (timestamp - genesis_time) / slot_duration;
    let threads: u64 = thread_count as u64;
    let period: u64 = n / threads;
    let thread: u64 = n % threads;
    Ok(Slot { period, thread: thread as u8 })
}

/// A slot's timestamp never decreases when its period grows.
pub proof fn law_time_monotonic_in_period(
    a: Slot,
    b: Slot,
    genesis_time: u64,
    slot_duration: u64,
    thread_count: u8,
)
    requires
        a.thread == b.thread,
        a.period <= b.period,
    ensures
        spec_time_of(a, genesis_time, slot_duration, thread_count) <= spec_time_of(
            b,
            genesis_time,
            slot_duration,
            thread_count,
        ),
{
    lemma_mul_inequality(a.period as int, b.period as int, thread_count as int);
    lemma_mul_inequality(
        a.index(thread_count),
        b.index(thread_count),
        slot_duration as int,
    );
}

/// Slots that come later begin later: the order of slots is the order of their starts.
pub proof fn law_start_follows_slot_order(
    a: Slot,
    b: Slot,
    genesis_time: u64,
    slot_duration: u64,
    thread_count: u8,
)
    requires
        slot_duration > 0,
        a.thread < thread_count,
        b.thread < thread_count,
    ensures
        a.spec_lt(b) <==> a.start(genesis_time, slot_duration, thread_count) < b.start(
            genesis_time,
            slot_duration,
            thread_count,
        ),
{
    let t = thread_count as int;
    let d = slot_duration as int;
    let ia = a.index(thread_count);
    let ib = b.index(thread_count);
    assert(a.spec_lt(b) <==> ia < ib) by {
        if a.period < b.period {
            lemma_mul_inequality(a.period as int + 1, b.period as int, t);
            assert((a.period as int + 1) * t == a.period * t + t) by (nonlinear_arith);
        }
        if b.period < a.period {
            lemma_mul_inequality(b.period as int + 1, a.period as int, t);
            assert((b.period as int + 1) * t == b.period * t + t) by (nonlinear_arith);
        }
    }
    assert(ia < ib <==> ia * d < ib * d) by (nonlinear_arith)
        requires
            d > 0,
    ;
}

/// The slot that is running when a slot begins is that slot.
pub proof fn law_slot_of_start(
    slot: Slot,
    genesis_time: u64,
    slot_duration: u64,
    thread_count: u8,
)
    requires
        slot_duration > 0,
        slot.thread < thread_count,
        slot.start(genesis_time, slot_duration, thread_count) <= u64::MAX,
    ensures
        spec_slot_of(
            spec_time_of(slot, genesis_time, slot_duration, thread_count) as u64,
            genesis_time,
            slot_duration,
            thread_count,
        ) == slot,
{
    let index = slot.index(thread_count);
    let start = slot.start(genesis_time, slot_duration, thread_count);
    lemma_fundamental_div_mod_converse(start - genesis_time, slot_duration as int, index, 0);
    lemma_fundamental_div_mod_converse(
        index,
        thread_count as int,
        slot.period as int,
        slot.thread as int,
    );
}

/// A timestamp lies in the slot that is running at it: not before the slot
/// begins, and before the next one does.
pub proof fn law_timestamp_within_its_slot(
    timestamp: u64,
    genesis_time: u64,
    slot_duration: u64,
    thread_count: u8,
)
    requires
        slot_duration > 0,
        thread_count > 0,
        timestamp >= genesis_time,
    ensures
        ({
            let slot = spec_slot_of(timestamp, genesis_time, slot_duration, thread_count);
            let start = slot.start(genesis_time, slot_duration, thread_count);
            &&& slot.thread < thread_count
            &&& start <= timestamp < start + slot_duration
        }),
{
    let d = slot_duration as int;
    let t = thread_count as int;
    let elapsed = timestamp - genesis_time;
    let n = elapsed / d;
    lemma_fundamental_div_mod(elapsed, d);
    lemma_div_pos_is_pos(elapsed, d);
    lemma_fundamental_div_mod(n, t);
    lemma_div_pos_is_pos(n, t);
    assert(n <= elapsed) by {
        lemma_product_grows(n, d);
        lemma_mul_is_commutative(n, d);
    }
    assert(n / t <= n) by {
        lemma_product_grows(n / t, t);
        lemma_mul_is_commutative(n / t, t);
    }
    lemma_mul_is_commutative(n / t, t);
    lemma_mul_is_commutative(n, d);
}

proof fn lemma_later_slot_starts_a_slot_later(
    a: Slot,
    b: Slot,
    genesis_time: u64,
    slot_duration: u64,
    thread_count: u8,
)
    requires
        slot_duration > 0,
        a.thread < thread_count,
        b.thread < thread_count,
        a.spec_lt(b),
    ensures
        a.start(genesis_time, slot_duration, thread_count) + slot_duration <= b.start(
            genesis_time,
            slot_duration,
            thread_count,
        ),
{
    law_start_follows_slot_order(a, b, genesis_time, slot_duration, thread_count);
    let d = slot_duration as int;
    let ia = a.index(thread_count);
    let ib = b.index(thread_count);
    assert(ia < ib) by (nonlinear_arith)
        requires
            ia * d < ib * d,
            d > 0,
    ;
    assert((ia + 1) * d <= ib * d) by (nonlinear_arith)
        requires
            ia + 1 <= ib,
            d > 0,
    ;
    assert((ia + 1) * d == ia * d + d) by (nonlinear_arith);
}

/// Bounds on timestamps are bounds on slots. A slot begins at or after
/// `timestamp` exactly when it comes after the slot that is running at
/// `timestamp`, or is that slot and begins at `timestamp`. A slot begins
/// before `timestamp` exactly when it comes before the running slot, or is
/// that slot and `timestamp` is not its first instant.
pub proof fn law_time_bounds_are_slot_bounds(
    slot: Slot,
    timestamp: u64,
    genesis_time: u64,
    slot_duration: u64,
    thread_count: u8,
)
    requires
        slot_duration > 0,
        slot.thread < thread_count,
        timestamp >= genesis_time,
    ensures
        ({
            let running = spec_slot_of(timestamp, genesis_time, slot_duration, thread_count);
            let begins = slot.start(genesis_time, slot_duration, thread_count);
            let running_begins = running.start(genesis_time, slot_duration, thread_count);
            &&& begins >= timestamp <==> running.spec_lt(slot) || (slot == running
                && running_begins == timestamp)
            &&& begins < timestamp <==> slot.spec_lt(running) || (slot == running
                && running_begins < timestamp)
        }),
{
    let running = spec_slot_of(timestamp, genesis_time, slot_duration, thread_count);
    law_timestamp_within_its_slot(timestamp, genesis_time, slot_duration, thread_count);
    if running.spec_lt(slot) {
        lemma_later_slot_starts_a_slot_later(
            running,
            slot,
            genesis_time,
            slot_duration,
            thread_count,
        );
    } else if slot.spec_lt(running) {
        lemma_later_slot_starts_a_slot_later(
            slot,
            running,
            genesis_time,
            slot_duration,
            thread_count,
        );
    } else {
        assert(slot == running);
    }
}

} // verus!
