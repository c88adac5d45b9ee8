//! The shared windowing algorithm: per-sample violation flags in, ordered
//! violation windows out.
use vstd::prelude::*;

verus! {

/// A run of consecutive violated samples, by index into the sample sequence.
///
/// `start` and `end` are both inclusive. `at_end` tells whether the run was
/// still open when the sequence ended (a final closure) rather than closed by a
/// satisfied sample in the middle of the sequence.
#[derive(Clone, Copy, Debug, PartialEq, Eq, Structural)]
pub struct WindowSpan {
    pub start: usize,
    pub end: usize,
    pub at_end: bool,
}

/// Sample `i` lies inside the span `s`.
pub open spec fn in_span(s: WindowSpan, i: int) -> bool {
    s.start <= i <= s.end
}

/// Some span of `spans` holds sample `i`.
pub open spec fn covered(spans: Seq<WindowSpan>, i: int) -> bool {
    exists|k: int| 0 <= k < spans.len() && #[trigger] in_span(spans[k], i)
}

/// `s` is a maximal run of violated samples of `flags`: every sample in it is
/// violated, the samples just outside it are not (or do not exist), and
/// `at_end` is set exactly when the run reaches the last sample.
pub open spec fn is_maximal_run(flags: Seq<bool>, s: WindowSpan) -> bool {
    &&& s.start <= s.end < flags.len()
    &&& forall|i: int| s.start <= i <= s.end ==> #[trigger] flags[i]
    &&& s.start == 0 || !flags[s.start - 1]
    &&& s.at_end == (s.end + 1 == flags.len())
    &&& s.end + 1 < flags.len() ==> !flags[s.end + 1]
}

/// Spans are in increasing order and apart: each ends before the next starts.
pub open spec fn spans_ordered(spans: Seq<WindowSpan>) -> bool {
    forall|k: int| 0 <= k < spans.len() - 1 ==> #[trigger] spans[k].end < spans[k + 1].start
}

/// `spans` is the window list of `flags`: its maximal runs of violated
/// samples, each once, in order.
pub open spec fn windows_of(flags: Seq<bool>, spans: Seq<WindowSpan>) -> bool {
    &&& forall|k: int| 0 <= k < spans.len() ==> is_maximal_run(flags, #[trigger] spans[k])
    &&& spans_ordered(spans)
    &&& forall|i: int| 0 <= i < flags.len() && #[trigger] flags[i] ==> covered(spans, i)
}

/// Scans the flags in order and returns the maximal runs of violated samples.
///
/// A run opens at a satisfied-to-violated transition (or at the first sample
/// when it is violated), closes at the sample before the next satisfied one,
/// and a run still open at the end closes at the last sample with `at_end`
/// set. No flags give no spans.
pub fn track_violations(violated: &Vec<bool>) -> (spans: Vec<WindowSpan>)
    ensures
        windows_of(violated@, spans@),
{
    let n = violated.len();
    let mut spans: Vec<WindowSpan> = Vec::new();
    let mut open: Option<usize> = None;
    let mut i: usize = 0;
    while i < n
        invariant
            n == violated@.len(),
            0 <= i <= n,
            forall|k: int| 0 <= k < spans@.len() ==> is_maximal_run(violated@, #[trigger] spans@[k]),
            forall|k: int| 0 <= k < spans@.len() ==> #[trigger] spans@[k].end < i,
            spans_ordered(spans@),
            match open {
                None => {
                    &&& i == 0 || !violated@[i - 1]
                    &&& spans@.len() > 0 ==> spans@.last().end + 1 < i
                },
                Some(s) => {
                    &&& s < i
                    &&& forall|j: int| s <= j < i ==> #[trigger] violated@[j]
                    &&& s == 0 || !violated@[s - 1]
                    &&& spans@.len() > 0 ==> spans@.last().end + 1 < s
                },
            },
            forall|j: int|
                0 <= j < i && #[trigger] violated@[j] ==> covered(spans@, j) || (match open {
                    None => false,
                    Some(s) => s <= j,
                }),
        decreases n - i,
    {
        if violated[i] {
            if open.is_none() {
                open = Some(i);
            }
        } else {
            if let Some(s) = open {
                let span = WindowSpan { start: s, end: i - 1, at_end: false };
                let ghost old_spans = spans@;
                spans.push(span);
                proof {
                    assert(spans@[spans@.len() - 1] == span);
                    assert forall|j: int| 0 <= j < i && #[trigger] violated@[j] implies covered(
                        spans@,
                        j,
                    ) by {
                        if s <= j {
                            assert(in_span(spans@[spans@.len() - 1], j));
                        } else {
                            let k = choose|k: int| 0 <= k < old_spans.len() && #[trigger] in_span(old_spans[k], j);
                            assert(spans@[k] == old_spans[k]);
                            assert(in_span(spans@[k], j));
                        }
                    }
                }
                open = None;
            }
        }
        i = i + 1;
    }
    if let Some(s) = open {
        let span = WindowSpan { start: s, end: n - 1, at_end: true };
        let ghost old_spans = spans@;
        spans.push(span);
        proof {
            assert(spans@[spans@.len() - 1] == span);
            assert forall|j: int| 0 <= j < n && #[trigger] violated@[j] implies covered(
                spans@,
                j,
            ) by {
                if s <= j {
                    assert(in_span(spans@[spans@.len() - 1], j));
                } else {
                    let k = choose|k: int| 0 <= k < old_spans.len() && #[trigger] in_span(old_spans[k], j);
                    assert(spans@[k] == old_spans[k]);
                    assert(in_span(spans@[k], j));
                }
            }
        }
    }
    spans
}

/// Ordered spans that are runs are apart across any distance, not just
/// between neighbours.
proof fn lemma_ordered_apart(flags: Seq<bool>, spans: Seq<WindowSpan>, i: int, j: int)
    requires
        windows_of(flags, spans),
        0 <= i < j < spans.len(),
    ensures
        spans[i].end < spans[j].start,
    decreases j - i,
{
    assert(spans[j - 1].end < spans[j].start);
    assert(is_maximal_run(flags, spans[j - 1]));
    if i < j - 1 {
        lemma_ordered_apart(flags, spans, i, j - 1);
    }
}

/// A sample that starts a run of violated samples starts a span of every
/// window list of the flags.
proof fn lemma_run_start_has_span(flags: Seq<bool>, spans: Seq<WindowSpan>, s: int) -> (k: int)
    requires
        windows_of(flags, spans),
        0 <= s < flags.len(),
        flags[s],
        s == 0 || !flags[s - 1],
    ensures
        0 <= k < spans.len(),
        spans[k].start == s,
{
    assert(covered(spans, s));
    let k = choose|k: int| 0 <= k < spans.len() && #[trigger] in_span(spans[k], s);
    assert(is_maximal_run(flags, spans[k]));
    if spans[k].start < s {
        assert(flags[s - 1]);
    }
    k
}

/// The window list of a flag sequence is unique: any two lists that meet
/// `windows_of` for the same flags are equal, so the contract of
/// `track_violations` fixes its output completely.
pub proof fn lemma_windows_unique(flags: Seq<bool>, a: Seq<WindowSpan>, b: Seq<WindowSpan>)
    requires
        windows_of(flags, a),
        windows_of(flags, b),
    ensures
        a == b,
{
    let n = if a.len() < b.len() { a.len() } else { b.len() };
    lemma_prefix_equal(flags, a, b, n as int);
    if a.len() >= b.len() {
        lemma_no_extra_span(flags, a, b);
    } else {
        lemma_no_extra_span(flags, b, a);
    }
    assert(a =~= b);
}

proof fn lemma_prefix_equal(flags: Seq<bool>, a: Seq<WindowSpan>, b: Seq<WindowSpan>, k: int)
    requires
        windows_of(flags, a),
        windows_of(flags, b),
        0 <= k <= a.len(),
        k <= b.len(),
    ensures
        forall|j: int| 0 <= j < k ==> a[j] == b[j],
    decreases k,
{
    if k > 0 {
        lemma_prefix_equal(flags, a, b, k - 1);
        lemma_same_span(flags, a, b, k - 1);
    }
}

proof fn lemma_same_span(flags: Seq<bool>, a: Seq<WindowSpan>, b: Seq<WindowSpan>, k: int)
    requires
        windows_of(flags, a),
        windows_of(flags, b),
        0 <= k < a.len(),
        k < b.len(),
        forall|j: int| 0 <= j < k ==> a[j] == b[j],
    ensures
        a[k] == b[k],
{
    assert(is_maximal_run(flags, a[k]));
    assert(is_maximal_run(flags, b[k]));
    let s = a[k].start as int;
    let m = lemma_run_start_has_span(flags, b, s);
    if m < k {
        assert(a[m] == b[m]);
        lemma_ordered_apart(flags, a, m, k);
        assert(is_maximal_run(flags, a[m]));
    } else if m > k {
        let t = b[k].start as int;
        lemma_ordered_apart(flags, b, k, m);
        let i = lemma_run_start_has_span(flags, a, t);
        if i < k {
            assert(a[i] == b[i]);
            lemma_ordered_apart(flags, b, i, k);
            assert(is_maximal_run(flags, b[i]));
        } else if i > k {
            lemma_ordered_apart(flags, a, k, i);
            assert(is_maximal_run(flags, a[k]));
        }
    }
    assert(b[k].start == a[k].start);
    if a[k].end < b[k].end {
        assert(flags[a[k].end + 1]);
    }
    if b[k].end < a[k].end {
        assert(flags[b[k].end + 1]);
    }
}

proof fn lemma_no_extra_span(flags: Seq<bool>, a: Seq<WindowSpan>, b: Seq<WindowSpan>)
    requires
        windows_of(flags, a),
        windows_of(flags, b),
        a.len() >= b.len(),
        forall|j: int| 0 <= j < b.len() ==> a[j] == b[j],
    ensures
        a.len() == b.len(),
{
    if a.len() > b.len() {
        let k = b.len() as int;
        assert(is_maximal_run(flags, a[k]));
        let m = lemma_run_start_has_span(flags, b, a[k].start as int);
        assert(a[m] == b[m]);
        lemma_ordered_apart(flags, a, m, k);
        assert(is_maximal_run(flags, a[m]));
    }
}

} // verus!
