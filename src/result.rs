//! The result of one evaluation: violation windows, the evaluated instants,
//! and the queries answered from them.
use vstd::prelude::*;
use vstd::arithmetic::div_mod::{lemma_fundamental_div_mod, lemma_mod_pos_bound};
use crate::time::{nanos_of, whole_seconds_between, Timestamp, lemma_precedes_iff_earlier, MAX_ABS_SECONDS, NANOS_PER_SECOND};
use crate::text::{decimal, push_decimal};
use crate::tracker::{in_span, windows_of, track_violations, WindowSpan};

verus! {

/// Why a result could not be built or queried.
#[derive(Clone, Copy, Debug, PartialEq, Eq, Structural)]
pub enum ConstraintError {
    /// An instant is not valid, or the instants are not strictly increasing.
    InvalidTimes,
    /// A window's indices fall outside the instants, or its times are not the
    /// instants at its indices.
    MisplacedWindow,
    /// Two consecutive windows touch, overlap or are out of order.
    OverlappingWindows,
    /// The queried instant is not one of the evaluated instants.
    TimeNotFound,
    /// The per-sample flags and the instants differ in number.
    LengthMismatch,
}

/// One violation window: the first and last violated instants (both
/// inclusive, both evaluated instants), their indices, the severity reported
/// for the window (the largest seen inside it), and a human-readable
/// description.
#[derive(Clone, Debug)]
pub struct ConstraintViolation<S> {
    pub start_time: Timestamp,
    pub end_time: Timestamp,
    pub start_index: usize,
    pub end_index: usize,
    pub max_severity: S,
    pub description: String,
}

impl<S> ConstraintViolation<S> {
    /// The window of `span` over the instants `times`.
    pub fn from_span(span: &WindowSpan, times: &Vec<Timestamp>, max_severity: S, description: String) -> (r: Self)
        requires
            span.start <= span.end < times@.len(),
        ensures
            r.start_index == span.start,
            r.end_index == span.end,
            r.start_time == times@[span.start as int],
            r.end_time == times@[span.end as int],
            r.max_severity == max_severity,
            r.description == description,
    {
        ConstraintViolation {
            start_time: times[span.start],
            end_time: times[span.end],
            start_index: span.start,
            end_index: span.end,
            max_severity,
            description,
        }
    }
}

/// Every instant is valid and each comes strictly before the next.
pub open spec fn times_increasing(times: Seq<Timestamp>) -> bool {
    &&& forall|i: int| 0 <= i < times.len() ==> (#[trigger] times[i]).is_valid()
    &&& forall|i: int| 0 <= i < times.len() - 1 ==> (#[trigger] times[i]).precedes(times[i + 1])
}

/// Window `v` sits on the instants: its indices are in range and in order,
/// and its times are the instants at those indices.
pub open spec fn window_placed<S>(v: ConstraintViolation<S>, times: Seq<Timestamp>) -> bool {
    &&& v.start_index <= v.end_index < times.len()
    &&& v.start_time == times[v.start_index as int]
    &&& v.end_time == times[v.end_index as int]
}

/// Every window sits on the instants.
pub open spec fn windows_placed<S>(vs: Seq<ConstraintViolation<S>>, times: Seq<Timestamp>) -> bool {
    forall|k: int| 0 <= k < vs.len() ==> window_placed(#[trigger] vs[k], times)
}

/// Each window ends, by index, before the next one starts.
pub open spec fn windows_apart<S>(vs: Seq<ConstraintViolation<S>>) -> bool {
    forall|k: int| 0 <= k < vs.len() - 1 ==> (#[trigger] vs[k]).end_index < vs[k + 1].start_index
}

/// Instant `t` lies in window `v`, bounds included.
pub open spec fn window_holds<S>(v: ConstraintViolation<S>, t: Timestamp) -> bool {
    !t.precedes(v.start_time) && !v.end_time.precedes(t)
}

/// Some window of `vs` holds instant `t`.
pub open spec fn violated_at<S>(vs: Seq<ConstraintViolation<S>>, t: Timestamp) -> bool {
    exists|k: int| 0 <= k < vs.len() && #[trigger] window_holds(vs[k], t)
}

/// The sum, over the windows, of the whole seconds from start to end.  A
/// window of one instant adds nothing.
pub open spec fn total_duration<S>(vs: Seq<ConstraintViolation<S>>) -> int
    decreases vs.len(),
{
    if vs.len() == 0 {
        0
    } else {
        total_duration(vs.drop_last()) + whole_seconds_between(vs.last().start_time, vs.last().end_time)
    }
}

/// The dense mask of `vs` over `times`: true where no window holds the instant.
pub open spec fn satisfied_mask<S>(vs: Seq<ConstraintViolation<S>>, times: Seq<Timestamp>) -> Seq<bool> {
    Seq::new(times.len(), |i: int| !violated_at(vs, times[i]))
}

/// Outcome of one evaluation: the violation windows in time order, whether
/// there were none, the name of the constraint, and the evaluated instants.
#[derive(Clone, Debug)]
pub struct ConstraintResult<S> {
    pub violations: Vec<ConstraintViolation<S>>,
    pub all_satisfied: bool,
    pub constraint_name: String,
    pub times: Vec<Timestamp>,
}

impl<S> ConstraintResult<S> {
    /// The instants increase strictly, each window sits on them, the windows
    /// are apart and in order, and `all_satisfied` says that there are none.
    pub open spec fn wf(&self) -> bool {
        &&& times_increasing(self.times@)
        &&& windows_placed(self.violations@, self.times@)
        &&& windows_apart(self.violations@)
        &&& self.all_satisfied == (self.violations@.len() == 0)
    }

    /// Builds a result from windows and the instants they were evaluated on.
    ///
    /// Fails with `InvalidTimes` where an instant is invalid or the instants do
    /// not increase strictly; otherwise with `MisplacedWindow` where a window
    /// does not sit on the instants; otherwise with `OverlappingWindows` where
    /// two consecutive windows are not apart.
    pub fn new(violations: Vec<ConstraintViolation<S>>, constraint_name: String, times: Vec<Timestamp>) -> (r: Result<Self, ConstraintError>)
        ensures
            r is Ok <==> times_increasing(times@) && windows_placed(violations@, times@) && windows_apart(violations@),
            (r == Err::<Self, ConstraintError>(ConstraintError::InvalidTimes)) <==> !times_increasing(times@),
            (r == Err::<Self, ConstraintError>(ConstraintError::MisplacedWindow)) <==> times_increasing(times@) && !windows_placed(violations@, times@),
            (r == Err::<Self, ConstraintError>(ConstraintError::OverlappingWindows)) <==> times_increasing(times@) && windows_placed(violations@, times@) && !windows_apart(violations@),
            r matches Ok(res) ==> {
                &&& res.wf()
                &&& res.violations@ == violations@
                &&& res.constraint_name@ == constraint_name@
                &&& res.times@ == times@
                &&& res.all_satisfied == (violations@.len() == 0)
            },
    {
        if !check_times(&times) {
            return Err(ConstraintError::InvalidTimes);
        }
        let n = violations.len();
        let mut k: usize = 0;
        while k < n
            invariant
                n == violations@.len(),
                k <= n,
                times_increasing(times@),
                forall|j: int| 0 <= j < k ==> window_placed(#[trigger] violations@[j], times@),
            decreases n - k,
        {
            let v = &violations[k];
            if !(v.start_index <= v.end_index && v.end_index < times.len() && v.start_time
                == times[v.start_index] && v.end_time == times[v.end_index]) {
                assert(!window_placed(violations@[k as int], times@));
                return Err(ConstraintError::MisplacedWindow);
            }
            k = k + 1;
        }
        let mut k: usize = 0;
        while k < n
            invariant
                n == violations@.len(),
                k <= n,
                times_increasing(times@),
                windows_placed(violations@, times@),
                forall|j: int| 0 <= j < k && j < n - 1 ==> (#[trigger] violations@[j]).end_index < violations@[j + 1].start_index,
            decreases n - k,
        {
            if k + 1 < n && violations[k].end_index >= violations[k + 1].start_index {
                assert(!windows_apart(violations@)) by {
                    assert(!(violations@[k as int].end_index < violations@[k + 1].start_index));
                }
                return Err(ConstraintError::OverlappingWindows);
            }
            k = k + 1;
        }
        let all_satisfied = n == 0;
        Ok(ConstraintResult { violations, all_satisfied, constraint_name, times })
    }
}

/// The index span of window `v` over `n` samples.
pub open spec fn span_of<S>(v: ConstraintViolation<S>, n: int) -> WindowSpan {
    WindowSpan { start: v.start_index, end: v.end_index, at_end: v.end_index + 1 == n }
}

/// The index spans of the windows `vs` over `n` samples.
pub open spec fn spans_of<S>(vs: Seq<ConstraintViolation<S>>, n: int) -> Seq<WindowSpan> {
    vs.map_values(|v: ConstraintViolation<S>| span_of(v, n))
}

impl<S> ConstraintResult<S> {
    /// Evaluates one constraint from its per-sample violation flags.
    ///
    /// The flags are compressed into their maximal runs of violated samples
    /// (see `track_violations`); `describe` is called once per run, in order,
    /// and gives the run's largest severity and its description (the span's
    /// `at_end` tells a closure at the end of the sequence from one in the
    /// middle).  Fails with `InvalidTimes` where the instants are invalid or do
    /// not increase strictly, otherwise with `LengthMismatch` where there is
    /// not one flag per instant.
    pub fn from_flags<F: Fn(WindowSpan) -> (S, String)>(
        constraint_name: String,
        times: Vec<Timestamp>,
        violated: &Vec<bool>,
        describe: F,
    ) -> (r: Result<Self, ConstraintError>)
        requires
            forall|s: WindowSpan| #[trigger] describe.requires((s,)),
        ensures
            r is Ok <==> times_increasing(times@) && violated@.len() == times@.len(),
            (r == Err::<Self, ConstraintError>(ConstraintError::InvalidTimes)) <==> !times_increasing(times@),
            (r == Err::<Self, ConstraintError>(ConstraintError::LengthMismatch)) <==> times_increasing(times@) && violated@.len() != times@.len(),
            r matches Ok(res) ==> {
                &&& res.wf()
                &&& res.times@ == times@
                &&& res.constraint_name@ == constraint_name@
                &&& windows_of(violated@, spans_of(res.violations@, times@.len() as int))
                &&& forall|k: int| 0 <= k < res.violations@.len() ==> describe.ensures(
                    (span_of(#[trigger] res.violations@[k], times@.len() as int),),
                    (res.violations@[k].max_severity, res.violations@[k].description),
                )
            },
    {
        if !check_times(&times) {
            return Err(ConstraintError::InvalidTimes);
        }
        if violated.len() != times.len() {
            return Err(ConstraintError::LengthMismatch);
        }
        let spans = track_violations(violated);
        let n = spans.len();
        let ghost len = times@.len() as int;
        let mut violations: Vec<ConstraintViolation<S>> = Vec::new();
        let mut k: usize = 0;
        while k < n
            invariant
                n == spans@.len(),
                k <= n,
                len == times@.len(),
                violated@.len() == len,
                windows_of(violated@, spans@),
                forall|s: WindowSpan| #[trigger] describe.requires((s,)),
                violations@.len() == k,
                forall|j: int| 0 <= j < k ==> window_placed(#[trigger] violations@[j], times@),
                forall|j: int| 0 <= j < k ==> #[trigger] span_of(violations@[j], len) == spans@[j],
                forall|j: int| 0 <= j < k ==> describe.ensures(
                    (span_of(#[trigger] violations@[j], len),),
                    (violations@[j].max_severity, violations@[j].description),
                ),
            decreases n - k,
        {
            let span = spans[k];
            assert(crate::tracker::is_maximal_run(violated@, spans@[k as int]));
            let (max_severity, description) = describe(span);
            let v = ConstraintViolation::from_span(&span, &times, max_severity, description);
            violations.push(v);
            proof {
                assert(span_of(violations@[k as int], len) == span);
            }
            k = k + 1;
        }
        proof {
            assert(spans_of(violations@, len) =~= spans@);
            assert forall|j: int| 0 <= j < n - 1 implies (#[trigger] violations@[j]).end_index < violations@[j + 1].start_index by {
                assert(span_of(violations@[j], len) == spans@[j]);
                assert(span_of(violations@[j + 1], len) == spans@[j + 1]);
                assert(spans@[j].end < spans@[j + 1].start);
            }
        }
        let all_satisfied = n == 0;
        Ok(ConstraintResult { violations, all_satisfied, constraint_name, times })
    }
}

impl<S> ConstraintResult<S> {
    /// Total violated time in whole seconds: for each window, the whole
    /// seconds from its start to its end, summed.  A window of a single
    /// instant adds nothing, so this is not the number of violated samples
    /// times the step.
    pub fn total_violation_duration(&self) -> (r: i64)
        requires
            self.wf(),
        ensures
            r == total_duration(self.violations@),
            r >= 0,
    {
        let vs = &self.violations;
        let n = vs.len();
        let ghost ns = NANOS_PER_SECOND as int;
        let mut total: i64 = 0;
        let mut k: usize = 0;
        while k < n
            invariant
                n == vs@.len(),
                vs == &self.violations,
                self.wf(),
                ns == NANOS_PER_SECOND as int,
                k <= n,
                total == total_duration(vs@.take(k as int)),
                total >= 0,
                k > 0 ==> total * ns <= nanos_of(vs@[k - 1].end_time) - nanos_of(vs@[0].start_time),
            decreases n - k,
        {
            let v = &vs[k];
            proof {
                let times = self.times@;
                assert(window_placed(vs@[k as int], times));
                lemma_index_order(times, v.end_index as int, v.start_index as int);
                lemma_index_order(times, v.start_index as int, v.end_index as int);
                lemma_precedes_iff_earlier(v.start_time, v.end_time);
                if k > 0 {
                    assert(window_placed(vs@[k - 1], times));
                    assert(vs@[k - 1].end_index < vs@[k as int].start_index);
                    lemma_index_order(times, vs@[k - 1].end_index as int, v.start_index as int);
                    lemma_precedes_iff_earlier(vs@[k - 1].end_time, v.start_time);
                } else {
                    assert(window_placed(vs@[0], times));
                }
                let x = nanos_of(v.end_time) - nanos_of(v.start_time);
                lemma_fundamental_div_mod(x, ns);
                lemma_mod_pos_bound(x, ns);
                assert(whole_seconds_between(v.start_time, v.end_time) * ns <= x) by (nonlinear_arith)
                    requires x == ns * (x / ns) + x % ns, x % ns >= 0, whole_seconds_between(v.start_time, v.end_time) == x / ns;
                let bound = 2 * MAX_ABS_SECONDS as int + 1;
                assert(nanos_of(v.end_time) - nanos_of(vs@[0].start_time) <= bound * ns) by (nonlinear_arith)
                    requires
                        v.end_time.is_valid(), vs@[0].start_time.is_valid(),
                        ns == NANOS_PER_SECOND as int, bound == 2 * MAX_ABS_SECONDS as int + 1;
                assert(vs@[0].start_time.is_valid()) by {
                    assert(window_placed(vs@[0], times));
                }
                let w = whole_seconds_between(v.start_time, v.end_time);
                assert(total + w <= bound) by (nonlinear_arith)
                    requires
                        (total + w) * ns <= bound * ns, ns > 0;
            }
            let d = v.start_time.whole_seconds_until(&v.end_time);
            total = total + d;
            proof {
                assert(vs@.take(k + 1).drop_last() =~= vs@.take(k as int));
            }
            k = k + 1;
        }
        proof {
            assert(vs@.take(n as int) =~= vs@);
        }
        total
    }

    /// Tells whether no window holds `t`.
    pub fn satisfied_at(&self, t: &Timestamp) -> (r: bool)
        ensures
            r == !violated_at(self.violations@, *t),
    {
        let vs = &self.violations;
        let n = vs.len();
        let mut k: usize = 0;
        while k < n
            invariant
                n == vs@.len(),
                vs@ == self.violations@,
                k <= n,
                forall|j: int| 0 <= j < k ==> !#[trigger] window_holds(vs@[j], *t),
            decreases n - k,
        {
            let v = &vs[k];
            if !t.is_before(&v.start_time) && !v.end_time.is_before(t) {
                assert(window_holds(vs@[k as int], *t));
                return false;
            }
            k = k + 1;
        }
        true
    }

    /// The dense mask over the evaluated instants: true at an instant that no
    /// window holds (bounds included).
    pub fn constraint_array(&self) -> (r: Vec<bool>)
        ensures
            r@ == satisfied_mask(self.violations@, self.times@),
    {
        let n = self.times.len();
        let mut ok: Vec<bool> = Vec::new();
        let mut i: usize = 0;
        while i < n
            invariant
                n == self.times@.len(),
                i <= n,
                ok@ =~= satisfied_mask(self.violations@, self.times@).take(i as int),
            decreases n - i,
        {
            let sat = self.satisfied_at(&self.times[i]);
            ok.push(sat);
            i = i + 1;
        }
        ok
    }

    /// Whether the constraint holds at `time`, which must be one of the
    /// evaluated instants; `TimeNotFound` where it is not.
    pub fn in_constraint(&self, time: &Timestamp) -> (r: Result<bool, ConstraintError>)
        ensures
            (exists|i: int| 0 <= i < self.times@.len() && #[trigger] self.times@[i] == *time)
                ==> r == Ok::<bool, ConstraintError>(!violated_at(self.violations@, *time)),
            !(exists|i: int| 0 <= i < self.times@.len() && #[trigger] self.times@[i] == *time)
                ==> r == Err::<bool, ConstraintError>(ConstraintError::TimeNotFound),
    {
        let n = self.times.len();
        let mut i: usize = 0;
        while i < n
            invariant
                n == self.times@.len(),
                i <= n,
                forall|j: int| 0 <= j < i ==> #[trigger] self.times@[j] != *time,
            decreases n - i,
        {
            if self.times[i] == *time {
                return Ok(self.satisfied_at(time));
            }
            i = i + 1;
        }
        Err(ConstraintError::TimeNotFound)
    }
}

/// The text form of a result: its constraint, how many windows it holds, and
/// whether all samples were satisfied.
pub open spec fn result_repr(name: Seq<char>, n_windows: nat, all_satisfied: bool) -> Seq<char> {
    "ConstraintResult(constraint='"@ + name + "', violations="@ + decimal(n_windows) + ", all_satisfied="@
        + (if all_satisfied {
        "true"@
    } else {
        "false"@
    }) + ")"@
}

impl<S> ConstraintResult<S> {
    /// One line naming the constraint, the number of windows and whether all
    /// samples were satisfied.
    pub fn repr(&self) -> (r: String)
        ensures
            r@ == result_repr(self.constraint_name@, self.violations@.len(), self.all_satisfied),
    {
        let mut s = String::from_str("ConstraintResult(constraint='");
        s.append(self.constraint_name.as_str());
        s.append("', violations=");
        push_decimal(&mut s, self.violations.len() as u64);
        s.append(", all_satisfied=");
        if self.all_satisfied {
            s.append("true");
        } else {
            s.append("false");
        }
        s.append(")");
        s
    }
}

/// Over strictly increasing instants, a later index holds a later instant.
proof fn lemma_later_index_later_time(times: Seq<Timestamp>, a: int, b: int)
    requires
        times_increasing(times),
        0 <= a < b < times.len(),
    ensures
        nanos_of(times[a]) < nanos_of(times[b]),
    decreases b - a,
{
    assert(times[b - 1].precedes(times[b]));
    lemma_precedes_iff_earlier(times[b - 1], times[b]);
    if a < b - 1 {
        lemma_later_index_later_time(times, a, b - 1);
    }
}

/// Over strictly increasing instants, the order of the instants is the order
/// of their indices.
pub proof fn lemma_index_order(times: Seq<Timestamp>, a: int, b: int)
    requires
        times_increasing(times),
        0 <= a < times.len(),
        0 <= b < times.len(),
    ensures
        a < b <==> nanos_of(times[a]) < nanos_of(times[b]),
        a < b <==> times[a].precedes(times[b]),
        a == b <==> times[a] == times[b],
{
    if a < b {
        lemma_later_index_later_time(times, a, b);
    } else if b < a {
        lemma_later_index_later_time(times, b, a);
    }
    lemma_precedes_iff_earlier(times[a], times[b]);
}

/// Sample `i` lies inside window `v`, by index.
pub open spec fn window_has_index<S>(v: ConstraintViolation<S>, i: int) -> bool {
    v.start_index <= i <= v.end_index
}

/// In a well-formed result an instant is held by a window exactly when its
/// index lies in the window's index range.
pub proof fn lemma_mask_by_index<S>(r: ConstraintResult<S>, i: int)
    requires
        r.wf(),
        0 <= i < r.times@.len(),
    ensures
        violated_at(r.violations@, r.times@[i]) <==> exists|k: int|
            0 <= k < r.violations@.len() && #[trigger] window_has_index(r.violations@[k], i),
{
    let vs = r.violations@;
    let times = r.times@;
    if violated_at(vs, times[i]) {
        let k = choose|k: int| 0 <= k < vs.len() && #[trigger] window_holds(vs[k], times[i]);
        assert(window_placed(vs[k], times));
        lemma_index_order(times, i, vs[k].start_index as int);
        lemma_index_order(times, vs[k].end_index as int, i);
        assert(window_has_index(vs[k], i));
    }
    if exists|k: int| 0 <= k < vs.len() && #[trigger] window_has_index(vs[k], i) {
        let k = choose|k: int| 0 <= k < vs.len() && #[trigger] window_has_index(vs[k], i);
        assert(window_placed(vs[k], times));
        lemma_index_order(times, i, vs[k].start_index as int);
        lemma_index_order(times, vs[k].end_index as int, i);
        assert(window_holds(vs[k], times[i]));
    }
}

/// The windows of a well-formed result do not overlap and come in time
/// order: each ends strictly before the next starts, and each starts no later
/// than it ends.  Their bounds are evaluated instants.
pub proof fn lemma_windows_in_time_order<S>(r: ConstraintResult<S>)
    requires
        r.wf(),
    ensures
        forall|k: int| 0 <= k < r.violations@.len() - 1
            ==> (#[trigger] r.violations@[k]).end_time.precedes(r.violations@[k + 1].start_time),
        forall|k: int| 0 <= k < r.violations@.len()
            ==> !(#[trigger] r.violations@[k]).end_time.precedes(r.violations@[k].start_time),
        forall|k: int| 0 <= k < r.violations@.len() ==> {
            &&& r.times@.contains((#[trigger] r.violations@[k]).start_time)
            &&& r.times@.contains(r.violations@[k].end_time)
        },
{
    let vs = r.violations@;
    let times = r.times@;
    assert forall|k: int| 0 <= k < vs.len() - 1 implies (#[trigger] vs[k]).end_time.precedes(vs[k + 1].start_time) by {
        assert(window_placed(vs[k], times));
        assert(window_placed(vs[k + 1], times));
        lemma_index_order(times, vs[k].end_index as int, vs[k + 1].start_index as int);
    }
    assert forall|k: int| 0 <= k < vs.len() implies !(#[trigger] vs[k]).end_time.precedes(vs[k].start_time) && times.contains(vs[k].start_time) && times.contains(vs[k].end_time) by {
        assert(window_placed(vs[k], times));
        lemma_index_order(times, vs[k].end_index as int, vs[k].start_index as int);
        assert(times[vs[k].start_index as int] == vs[k].start_time);
        assert(times[vs[k].end_index as int] == vs[k].end_time);
    }
}

/// The derived queries read nothing but the window bounds and the instants:
/// two results that agree on those give the same total duration and the same
/// mask, so asking again gives the same answer.
pub proof fn lemma_queries_depend_only_on_windows<S, T>(r1: ConstraintResult<S>, r2: ConstraintResult<T>)
    requires
        r1.times@ == r2.times@,
        r1.violations@.len() == r2.violations@.len(),
        forall|k: int| 0 <= k < r1.violations@.len() ==> {
            &&& (#[trigger] r1.violations@[k]).start_time == r2.violations@[k].start_time
            &&& r1.violations@[k].end_time == r2.violations@[k].end_time
        },
    ensures
        total_duration(r1.violations@) == total_duration(r2.violations@),
        satisfied_mask(r1.violations@, r1.times@) == satisfied_mask(r2.violations@, r2.times@),
{
    lemma_total_duration_same_bounds(r1.violations@, r2.violations@);
    let times = r1.times@;
    assert forall|t: Timestamp| violated_at(r1.violations@, t) == violated_at(r2.violations@, t) by {
        if violated_at(r1.violations@, t) {
            let k = choose|k: int| 0 <= k < r1.violations@.len() && #[trigger] window_holds(r1.violations@[k], t);
            assert(window_holds(r2.violations@[k], t));
        }
        if violated_at(r2.violations@, t) {
            let k = choose|k: int| 0 <= k < r2.violations@.len() && #[trigger] window_holds(r2.violations@[k], t);
            assert(window_holds(r1.violations@[k], t));
        }
    }
    assert(satisfied_mask(r1.violations@, times) =~= satisfied_mask(r2.violations@, times));
}

proof fn lemma_total_duration_same_bounds<S, T>(a: Seq<ConstraintViolation<S>>, b: Seq<ConstraintViolation<T>>)
    requires
        a.len() == b.len(),
        forall|k: int| 0 <= k < a.len() ==> {
            &&& (#[trigger] a[k]).start_time == b[k].start_time
            &&& a[k].end_time == b[k].end_time
        },
    ensures
        total_duration(a) == total_duration(b),
    decreases a.len(),
{
    if a.len() > 0 {
        let a2 = a.drop_last();
        let b2 = b.drop_last();
        assert forall|k: int| 0 <= k < a2.len() implies (#[trigger] a2[k]).start_time == b2[k].start_time && a2[k].end_time == b2[k].end_time by {
            assert(a2[k] == a[k]);
            assert(b2[k] == b[k]);
        }
        lemma_total_duration_same_bounds(a2, b2);
        assert(a.last() == a[a.len() - 1]);
    }
}

/// A well-formed result whose windows are the window list of `flags` (by
/// index) has the negated flags as its dense mask: the mask is true exactly
/// at the samples that were not violated.
pub proof fn lemma_mask_matches_flags<S>(r: ConstraintResult<S>, flags: Seq<bool>, spans: Seq<WindowSpan>)
    requires
        r.wf(),
        windows_of(flags, spans),
        flags.len() == r.times@.len(),
        spans.len() == r.violations@.len(),
        forall|k: int| 0 <= k < spans.len() ==> {
            &&& (#[trigger] r.violations@[k]).start_index == spans[k].start
            &&& r.violations@[k].end_index == spans[k].end
        },
    ensures
        satisfied_mask(r.violations@, r.times@) == Seq::new(flags.len(), |i: int| !flags[i]),
{
    let vs = r.violations@;
    assert forall|i: int| 0 <= i < flags.len() implies #[trigger] satisfied_mask(vs, r.times@)[i] == !flags[i] by {
        lemma_mask_by_index(r, i);
        if flags[i] {
            let k = choose|k: int| 0 <= k < spans.len() && #[trigger] in_span(spans[k], i);
            assert(window_has_index(vs[k], i));
        } else {
            if exists|k: int| 0 <= k < vs.len() && #[trigger] window_has_index(vs[k], i) {
                let k = choose|k: int| 0 <= k < vs.len() && #[trigger] window_has_index(vs[k], i);
                assert(spans[k].start <= i <= spans[k].end);
                assert(flags[i]);
            }
        }
    }
    assert(satisfied_mask(vs, r.times@) =~= Seq::new(flags.len(), |i: int| !flags[i]));
}

/// Tells whether every instant is valid and the instants increase strictly.
fn check_times(times: &Vec<Timestamp>) -> (r: bool)
    ensures
        r == times_increasing(times@),
{
    let n = times.len();
    let mut i: usize = 0;
    while i < n
        invariant
            n == times@.len(),
            i <= n,
            forall|j: int| 0 <= j < i ==> (#[trigger] times@[j]).is_valid(),
            forall|j: int| 0 <= j < i && j < n - 1 ==> (#[trigger] times@[j]).precedes(times@[j + 1]),
        decreases n - i,
    {
        if !times[i].check_valid() {
            return false;
        }
        if i + 1 < n && !times[i].is_before(&times[i + 1]) {
            return false;
        }
        i = i + 1;
    }
    true
}

} // verus!
