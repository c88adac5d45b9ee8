//! Instants on the UTC time scale, held as plain integers.
use vstd::prelude::*;
use vstd::arithmetic::div_mod::{lemma_fundamental_div_mod, lemma_fundamental_div_mod_converse, lemma_mod_pos_bound};

verus! {

/// Nanoseconds in one second.
pub const NANOS_PER_SECOND: u32 = 1_000_000_000;

/// Largest distance, in seconds, of a representable instant from
/// 1970-01-01T00:00:00Z (about 253 000 years either way, inside the span that
/// common calendar libraries can represent).
pub const MAX_ABS_SECONDS: i64 = 8_000_000_000_000;

/// An instant: whole seconds since 1970-01-01T00:00:00Z and a sub-second part
/// in nanoseconds.
#[derive(Clone, Copy, Debug, PartialEq, Eq, Structural)]
pub struct Timestamp {
    pub seconds: i64,
    pub nanos: u32,
}

/// Nanoseconds between the epoch and `t`.
pub open spec fn nanos_of(t: Timestamp) -> int {
    t.seconds * NANOS_PER_SECOND + t.nanos
}

/// Whole seconds from `a` to a later instant `b`, rounded down.
pub open spec fn whole_seconds_between(a: Timestamp, b: Timestamp) -> int {
    (nanos_of(b) - nanos_of(a)) / (NANOS_PER_SECOND as int)
}

impl Timestamp {
    /// The sub-second part is below one second and the instant lies within
    /// `MAX_ABS_SECONDS` of the epoch.
    pub open spec fn is_valid(self) -> bool {
        &&& -MAX_ABS_SECONDS <= self.seconds <= MAX_ABS_SECONDS
        &&& self.nanos < NANOS_PER_SECOND
    }

    /// `self` comes strictly before `other` (seconds first, then nanoseconds).
    pub open spec fn precedes(self, other: Timestamp) -> bool {
        self.seconds < other.seconds || (self.seconds == other.seconds && self.nanos < other.nanos)
    }

    /// Builds an instant, or `None` where it would not be valid.
    pub fn new(seconds: i64, nanos: u32) -> (r: Option<Timestamp>)
        ensures
            r == (if (Timestamp { seconds, nanos }).is_valid() {
                Some(Timestamp { seconds, nanos })
            } else {
                None
            }),
    {
        let t = Timestamp { seconds, nanos };
        if t.check_valid() {
            Some(t)
        } else {
            None
        }
    }

    /// Tells whether the instant is valid.
    pub fn check_valid(&self) -> (r: bool)
        ensures
            r == self.is_valid(),
    {
        -MAX_ABS_SECONDS <= self.seconds && self.seconds <= MAX_ABS_SECONDS && self.nanos
            < NANOS_PER_SECOND
    }

    /// Tells whether `self` comes strictly before `other`.
    pub fn is_before(&self, other: &Timestamp) -> (r: bool)
        ensures
            r == self.precedes(*other),
    {
        self.seconds < other.seconds || (self.seconds == other.seconds && self.nanos
            < other.nanos)
    }

    /// Whole seconds from `self` to `later`, rounded down: the length of the
    /// span counted in full seconds.
    pub fn whole_seconds_until(&self, later: &Timestamp) -> (r: i64)
        requires
            self.is_valid(),
            later.is_valid(),
            !later.precedes(*self),
        ensures
            r == whole_seconds_between(*self, *later),
            0 <= r <= 2 * MAX_ABS_SECONDS,
    {
        let d = later.seconds - self.seconds;
        let ghost ns = NANOS_PER_SECOND as int;
        if later.nanos >= self.nanos {
            proof {
                let rem = later.nanos - self.nanos;
                assert(nanos_of(*later) - nanos_of(*self) == d * ns + rem) by (nonlinear_arith)
                    requires d == later.seconds - self.seconds, ns == NANOS_PER_SECOND, rem == later.nanos - self.nanos;
                lemma_fundamental_div_mod_converse(nanos_of(*later) - nanos_of(*self), ns, d as int, rem);
            }
            d
        } else {
            proof {
                let rem = ns + later.nanos - self.nanos;
                assert(nanos_of(*later) - nanos_of(*self) == (d - 1) * ns + rem) by (nonlinear_arith)
                    requires d == later.seconds - self.seconds, ns == NANOS_PER_SECOND, rem == ns + later.nanos - self.nanos;
                lemma_fundamental_div_mod_converse(nanos_of(*later) - nanos_of(*self), ns, d - 1, rem);
            }
            d - 1
        }
    }
}

/// On valid instants the order of `precedes` is the order of the instants.
pub proof fn lemma_precedes_iff_earlier(a: Timestamp, b: Timestamp)
    requires
        a.is_valid(),
        b.is_valid(),
    ensures
        a.precedes(b) <==> nanos_of(a) < nanos_of(b),
        a == b <==> nanos_of(a) == nanos_of(b),
{
    let ns = NANOS_PER_SECOND as int;
    if a.seconds < b.seconds {
        assert(a.seconds * ns + ns <= b.seconds * ns) by (nonlinear_arith)
            requires a.seconds < b.seconds, ns > 0;
    } else if a.seconds > b.seconds {
        assert(b.seconds * ns + ns <= a.seconds * ns) by (nonlinear_arith)
            requires a.seconds > b.seconds, ns > 0;
    }
}

/// Most instants that one call of `generate_timestamps` may produce.
pub const MAX_TIMESTAMPS: i64 = 10_000_000;

/// Why a range of instants could not be generated.
#[derive(Clone, Copy, Debug, PartialEq, Eq, Structural)]
pub enum TimeRangeError {
    /// `begin` or `end` is not a valid instant.
    InvalidInstant,
    /// `begin` comes after `end`.
    BeginAfterEnd,
    /// The step is zero or negative.
    NonPositiveStep,
    /// The range would hold more than `MAX_TIMESTAMPS` instants.
    TooManyTimestamps,
}

/// Number of instants from `begin` to `end`, both included, `step` seconds
/// apart.
pub open spec fn timestamp_count(begin: Timestamp, end: Timestamp, step: int) -> int {
    whole_seconds_between(begin, end) / step + 1
}

/// `t` moved by `secs` whole seconds.
pub open spec fn shifted(t: Timestamp, secs: int) -> Timestamp {
    Timestamp { seconds: (t.seconds + secs) as i64, nanos: t.nanos }
}

proof fn lemma_step_count(range: int, step: int, count: int)
    requires
        range >= 0,
        step > 0,
        count == range / step + 1,
    ensures
        forall|k: int| 0 <= k < count ==> #[trigger] (k * step) <= range,
        count * step > range,
        count >= 1,
{
    lemma_fundamental_div_mod(range, step);
    lemma_mod_pos_bound(range, step);
    let q = range / step;
    assert(q >= 0) by (nonlinear_arith)
        requires range == step * q + range % step, 0 <= range % step < step, step > 0, range >= 0;
    assert forall|k: int| 0 <= k < count implies #[trigger] (k * step) <= range by {
        assert(k * step <= q * step) by (nonlinear_arith)
            requires 0 <= k <= q, step > 0;
    }
    assert(count * step > range) by (nonlinear_arith)
        requires count == q + 1, range == step * q + range % step, range % step < step;
}

/// The instants from `begin` to `end`, both included when the range allows,
/// `step_size` seconds apart: `begin`, `begin + step_size`, ... up to the last
/// one not after `end`.
///
/// Fails with `InvalidInstant` where `begin` or `end` is not valid; otherwise
/// with `BeginAfterEnd` where `begin` comes after `end`; otherwise with
/// `NonPositiveStep` where `step_size <= 0`; otherwise with
/// `TooManyTimestamps` where the range would hold more than `MAX_TIMESTAMPS`.
pub fn generate_timestamps(begin: Timestamp, end: Timestamp, step_size: i64) -> (r: Result<Vec<Timestamp>, TimeRangeError>)
    ensures
        r is Ok <==> begin.is_valid() && end.is_valid() && !end.precedes(begin) && step_size > 0
            && timestamp_count(begin, end, step_size as int) <= MAX_TIMESTAMPS,
        (r == Err::<Vec<Timestamp>, TimeRangeError>(TimeRangeError::InvalidInstant)) <==> !(begin.is_valid() && end.is_valid()),
        (r == Err::<Vec<Timestamp>, TimeRangeError>(TimeRangeError::BeginAfterEnd)) <==> begin.is_valid() && end.is_valid() && end.precedes(begin),
        (r == Err::<Vec<Timestamp>, TimeRangeError>(TimeRangeError::NonPositiveStep)) <==> begin.is_valid() && end.is_valid() && !end.precedes(begin) && step_size <= 0,
        (r == Err::<Vec<Timestamp>, TimeRangeError>(TimeRangeError::TooManyTimestamps)) <==> begin.is_valid() && end.is_valid() && !end.precedes(begin) && step_size > 0
            && timestamp_count(begin, end, step_size as int) > MAX_TIMESTAMPS,
        r matches Ok(v) ==> {
            &&& v@.len() == timestamp_count(begin, end, step_size as int)
            &&& forall|k: int| 0 <= k < v@.len() ==> #[trigger] v@[k] == shifted(begin, k * step_size)
            &&& forall|k: int| 0 <= k < v@.len() ==> (#[trigger] v@[k]).is_valid() && nanos_of(v@[k]) <= nanos_of(end)
            &&& nanos_of(begin) + v@.len() * step_size * NANOS_PER_SECOND > nanos_of(end)
        },
{
    if !begin.check_valid() || !end.check_valid() {
        return Err(TimeRangeError::InvalidInstant);
    }
    if end.is_before(&begin) {
        return Err(TimeRangeError::BeginAfterEnd);
    }
    if step_size <= 0 {
        return Err(TimeRangeError::NonPositiveStep);
    }
    let range = begin.whole_seconds_until(&end);
    let count = range / step_size + 1;
    if count > MAX_TIMESTAMPS {
        return Err(TimeRangeError::TooManyTimestamps);
    }
    let ghost ns = NANOS_PER_SECOND as int;
    let ghost diff = nanos_of(end) - nanos_of(begin);
    proof {
        lemma_step_count(range as int, step_size as int, count as int);
        lemma_precedes_iff_earlier(end, begin);
        lemma_fundamental_div_mod(diff, ns);
        lemma_mod_pos_bound(diff, ns);
        assert(range * ns <= diff && diff < range * ns + ns) by (nonlinear_arith)
            requires diff == ns * (diff / ns) + diff % ns, 0 <= diff % ns < ns, range == diff / ns;
        assert(range <= end.seconds - begin.seconds) by (nonlinear_arith)
            requires range * ns <= diff, diff == (end.seconds - begin.seconds) * ns + end.nanos - begin.nanos,
                end.nanos < ns, begin.nanos >= 0, ns > 0;
    }
    let mut times: Vec<Timestamp> = Vec::new();
    let mut k: i64 = 0;
    while k < count
        invariant
            0 <= k <= count,
            count == range / step_size + 1,
            count <= MAX_TIMESTAMPS,
            step_size > 0,
            range == whole_seconds_between(begin, end),
            range <= end.seconds - begin.seconds,
            range * ns <= diff,
            ns == NANOS_PER_SECOND as int,
            diff == nanos_of(end) - nanos_of(begin),
            begin.is_valid(),
            end.is_valid(),
            forall|j: int| 0 <= j < count ==> #[trigger] (j * step_size) <= range,
            times@.len() == k,
            forall|j: int| 0 <= j < k ==> #[trigger] times@[j] == shifted(begin, j * step_size),
            forall|j: int| 0 <= j < k ==> (#[trigger] times@[j]).is_valid() && nanos_of(times@[j]) <= nanos_of(end),
        decreases count - k,
    {
        assert((k as int) * (step_size as int) <= range);
        assert(k * step_size >= 0) by (nonlinear_arith)
            requires k >= 0, step_size > 0;
        let offset = k * step_size;
        let t = Timestamp { seconds: begin.seconds + offset, nanos: begin.nanos };
        proof {
            assert(nanos_of(t) == nanos_of(begin) + offset * ns) by (nonlinear_arith)
                requires t.seconds == begin.seconds + offset, t.nanos == begin.nanos, ns == NANOS_PER_SECOND as int;
            assert(offset * ns <= range * ns) by (nonlinear_arith)
                requires offset <= range, ns > 0;
        }
        times.push(t);
        k = k + 1;
    }
    proof {
        let c = count as int;
        assert(c * step_size > range);
        assert(c * step_size * ns > diff) by (nonlinear_arith)
            requires c * step_size >= range + 1, diff < range * ns + ns, ns > 0;
    }
    Ok(times)
}

} // verus!
