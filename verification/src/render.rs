//! The range formatter: one forward scan over a sequence that merges each
//! maximal chain of pairwise-adjacent elements into `first<sep>last`.
//!
//! The rendering is pinned down by the spec functions here.  A scan position
//! carries the start of the run being grown; a run is extended while the
//! adjacency decision for the pair at its tail holds, and rendered when it
//! closes.  Distinct runs are joined by `", "`, which is fixed; the separator
//! inside a run defaults to `-` and is configurable.

use vstd::prelude::*;

use crate::adjacent::IsAdjacent;
use crate::text::DebugText;
use vstd::string::StringExecFns;

verus! {

/// The fixed separator placed between distinct runs.
pub open spec fn run_gap() -> Seq<char> {
    seq![',', ' ']
}

/// How many consecutive pairs a sequence has.
pub open spec fn pair_count<T>(s: Seq<T>) -> int {
    if s.len() == 0 {
        0
    } else {
        s.len() - 1
    }
}

/// `d` records what one round of calls of `f` on the consecutive pairs of
/// `s`, in order, returned.
pub open spec fn decisions_for<T, F: Fn(&T, &T) -> bool>(f: F, s: Seq<T>, d: Seq<bool>) -> bool {
    &&& d.len() == pair_count(s)
    &&& forall|j: int| 0 <= j < d.len() ==> call_ensures(f, (&s[j], &s[j + 1]), #[trigger] d[j])
}

/// One run, rendered: a single value when the run never grew, and only the
/// two endpoints around `sep` otherwise.
pub open spec fn render_run<T: DebugText>(s: Seq<T>, start: int, end: int, sep: Seq<char>) -> Seq<
    char,
> {
    if end == start {
        s[start].text_spec()
    } else {
        s[start].text_spec() + sep + s[end].text_spec()
    }
}

/// The rendering of `s` from position `i` on, under the pair decisions `d`,
/// while inside a run that began at `start` and whose tail is `i`.  The run
/// is extended while the decision at its tail holds, and closed — rendered,
/// with `", "` before the next run, if any — otherwise.
pub open spec fn render_scan<T: DebugText>(
    s: Seq<T>,
    d: Seq<bool>,
    sep: Seq<char>,
    i: int,
    start: int,
) -> Seq<char>
    decreases s.len() - i,
{
    if !(0 <= start <= i < s.len()) {
        Seq::empty()
    } else if i + 1 < s.len() && i < d.len() && d[i] {
        render_scan(s, d, sep, i + 1, start)
    } else {
        render_run(s, start, i, sep) + if i + 1 < s.len() {
            run_gap() + render_scan(s, d, sep, i + 1, i + 1)
        } else {
            Seq::empty()
        }
    }
}

/// The complete rendering of `s` under the pair decisions `d`.
pub open spec fn render_decisions<T: DebugText>(s: Seq<T>, d: Seq<bool>, sep: Seq<char>) -> Seq<
    char,
> {
    if s.len() == 0 {
        Seq::empty()
    } else {
        render_scan(s, d, sep, 0, 0)
    }
}

/// The decisions that the built-in adjacency capability gives on `s`.
pub open spec fn adjacency_decisions<T: IsAdjacent>(s: Seq<T>) -> Seq<bool> {
    Seq::new(pair_count(s) as nat, |j: int| s[j].adjacent_spec(&s[j + 1]))
}

/// The complete rendering of `s` with the built-in adjacency capability.
pub open spec fn render_adjacent<T: DebugText + IsAdjacent>(s: Seq<T>, sep: Seq<char>) -> Seq<
    char,
> {
    render_decisions(s, adjacency_decisions(s), sep)
}

/// What stands in the output once every run before position `start` is
/// closed: nothing at the very beginning; those runs plus a trailing `", "`
/// while more elements follow; the complete rendering once `start` has
/// passed the end.
pub open spec fn render_closed<T: DebugText>(
    s: Seq<T>,
    d: Seq<bool>,
    sep: Seq<char>,
    start: int,
) -> Seq<char> {
    if start == 0 {
        Seq::empty()
    } else if start < s.len() {
        render_decisions(s.take(start), d, sep) + run_gap()
    } else {
        render_decisions(s, d, sep)
    }
}

/// The scan never reads the decision for a pair it has already passed, so a
/// decision recorded later does not change what was already rendered.
proof fn lemma_scan_push<T: DebugText>(
    s: Seq<T>,
    d: Seq<bool>,
    b: bool,
    sep: Seq<char>,
    i: int,
    start: int,
)
    requires
        s.len() <= d.len() + 1,
    ensures
        render_scan(s, d, sep, i, start) == render_scan(s, d.push(b), sep, i, start),
    decreases s.len() - i,
{
    let e = d.push(b);
    if 0 <= start <= i < s.len() {
        if i + 1 < s.len() {
            assert(i < d.len());
            assert(e[i] == d[i]);
            if d[i] {
                lemma_scan_push(s, d, b, sep, i + 1, start);
            } else {
                lemma_scan_push(s, d, b, sep, i + 1, i + 1);
            }
        }
    }
}

/// Scanning from anywhere inside a run renders the run's endpoints and goes
/// on after it: the chain of pairwise decisions alone fixes the run's extent.
proof fn lemma_scan_run<T: DebugText>(
    s: Seq<T>,
    d: Seq<bool>,
    sep: Seq<char>,
    start: int,
    end: int,
    j: int,
)
    requires
        0 <= start <= j <= end < s.len(),
        end <= d.len(),
        forall|k: int| j <= k < end ==> #[trigger] d[k],
        end + 1 < s.len() ==> end < d.len() && !d[end],
    ensures
        render_scan(s, d, sep, j, start) == render_run(s, start, end, sep) + if end + 1 < s.len() {
            run_gap() + render_scan(s, d, sep, end + 1, end + 1)
        } else {
            Seq::<char>::empty()
        },
    decreases end - j,
{
    if j < end {
        assert(d[j]);
        lemma_scan_run(s, d, sep, start, end, j + 1);
    }
}

/// A closed run boundary splits the scan: everything before `start` renders
/// as it would in the truncated sequence, followed by `", "` and the rest.
proof fn lemma_scan_split<T: DebugText>(
    s: Seq<T>,
    d: Seq<bool>,
    sep: Seq<char>,
    j: int,
    rs: int,
    start: int,
)
    requires
        0 <= rs <= j < start < s.len(),
        start - 1 < d.len(),
        !d[start - 1],
    ensures
        render_scan(s, d, sep, j, rs) == render_scan(s.take(start), d, sep, j, rs) + run_gap()
            + render_scan(s, d, sep, start, start),
    decreases start - j,
{
    let t = s.take(start);
    assert(t.len() == start);
    assert(t[rs] == s[rs]);
    assert(t[j] == s[j]);
    if j == start - 1 {
        assert(render_run(t, rs, j, sep) == render_run(s, rs, j, sep));
        assert(render_scan(s, d, sep, j, rs) == render_run(s, rs, j, sep) + (run_gap()
            + render_scan(s, d, sep, start, start)));
        assert(render_scan(t, d, sep, j, rs) == render_run(t, rs, j, sep) + Seq::<char>::empty());
        assert(render_run(s, rs, j, sep) + (run_gap() + render_scan(s, d, sep, start, start)) =~= (
        render_run(t, rs, j, sep) + Seq::<char>::empty()) + run_gap() + render_scan(
            s,
            d,
            sep,
            start,
            start,
        ));
    } else {
        if j < d.len() && d[j] {
            lemma_scan_split(s, d, sep, j + 1, rs, start);
        } else {
            lemma_scan_split(s, d, sep, j + 1, j + 1, start);
            assert(render_run(t, rs, j, sep) == render_run(s, rs, j, sep));
            let piece = render_run(s, rs, j, sep);
            let mid = render_scan(t, d, sep, j + 1, j + 1);
            let rest = render_scan(s, d, sep, start, start);
            assert(render_scan(s, d, sep, j, rs) == piece + (run_gap() + (mid + run_gap()
                + rest)));
            assert(render_scan(t, d, sep, j, rs) == piece + (run_gap() + mid));
            assert(piece + (run_gap() + (mid + run_gap() + rest)) =~= (piece + (run_gap() + mid))
                + run_gap() + rest);
        }
    }
}

/// Closing the run `start..=i` extends the closed-prefix rendering by
/// exactly that run's rendering.
proof fn lemma_close_run<T: DebugText>(s: Seq<T>, d: Seq<bool>, sep: Seq<char>, start: int, i: int)
    requires
        0 <= start <= i < s.len(),
        i <= d.len(),
        i + 1 < s.len() ==> d.len() == i + 1 && !d[i],
        forall|k: int| start <= k < i ==> #[trigger] d[k],
        start == 0 || (start - 1 < d.len() && !d[start - 1]),
    ensures
        (if i + 1 < s.len() {
            render_decisions(s.take(i + 1), d, sep)
        } else {
            render_decisions(s, d, sep)
        }) == render_closed(s, d, sep, start) + render_run(s, start, i, sep),
{
    let t = if i + 1 < s.len() {
        s.take(i + 1)
    } else {
        s
    };
    assert(t.len() == i + 1);
    assert(t[start] == s[start]);
    assert(t[i] == s[i]);
    assert(forall|k: int| 0 <= k < t.len() ==> t[k] == s[k]);
    lemma_scan_run(t, d, sep, start, i, start);
    assert(render_run(t, start, i, sep) == render_run(s, start, i, sep));
    if start == 0 {
        assert(render_scan(t, d, sep, 0, 0) =~= render_closed(s, d, sep, 0) + render_run(
            s,
            0,
            i,
            sep,
        ));
    } else {
        lemma_scan_split(t, d, sep, 0, 0, start);
        assert(t.take(start) =~= s.take(start));
        assert(render_scan(t, d, sep, 0, 0) == render_scan(s.take(start), d, sep, 0, 0)
            + run_gap() + (render_run(s, start, i, sep) + Seq::<char>::empty()));
        assert(render_closed(s, d, sep, start) == render_scan(s.take(start), d, sep, 0, 0)
            + run_gap());
        assert(render_scan(s.take(start), d, sep, 0, 0) + run_gap() + (render_run(
            s,
            start,
            i,
            sep,
        ) + Seq::<char>::empty()) =~= (render_scan(s.take(start), d, sep, 0, 0) + run_gap())
            + render_run(s, start, i, sep));
    }
}

proof fn lemma_scan_nonempty<T: DebugText>(s: Seq<T>, d: Seq<bool>, sep: Seq<char>, i: int, start: int)
    requires
        0 <= start <= i < s.len(),
        forall|k: int| 0 <= k < s.len() ==> (#[trigger] s[k].text_spec()).len() > 0,
    ensures
        render_scan(s, d, sep, i, start).len() > 0,
    decreases s.len() - i,
{
    if i + 1 < s.len() && i < d.len() && d[i] {
        lemma_scan_nonempty(s, d, sep, i + 1, start);
    } else {
        assert(s[start].text_spec().len() > 0);
        assert(render_run(s, start, i, sep).len() > 0);
    }
}

/// The output is empty exactly when the sequence is empty (granted that no
/// element renders as empty text — the integer texts never do).
pub proof fn lemma_output_empty_iff_empty<T: DebugText>(s: Seq<T>, d: Seq<bool>, sep: Seq<char>)
    requires
        forall|k: int| 0 <= k < s.len() ==> (#[trigger] s[k].text_spec()).len() > 0,
    ensures
        render_decisions(s, d, sep).len() == 0 <==> s.len() == 0,
{
    if s.len() > 0 {
        lemma_scan_nonempty(s, d, sep, 0, 0);
    }
}

/// A single-element sequence renders as that element's text alone, whatever
/// the decisions say.
pub proof fn lemma_single_value<T: DebugText>(s: Seq<T>, d: Seq<bool>, sep: Seq<char>)
    requires
        s.len() == 1,
    ensures
        render_decisions(s, d, sep) == s[0].text_spec(),
{
    assert(render_scan(s, d, sep, 0, 0) =~= s[0].text_spec());
}

/// Every element's text in order, joined by `", "` and nothing else.
pub open spec fn comma_joined<T: DebugText>(s: Seq<T>) -> Seq<char>
    decreases s.len(),
{
    if s.len() == 0 {
        Seq::empty()
    } else if s.len() == 1 {
        s[0].text_spec()
    } else {
        s[0].text_spec() + run_gap() + comma_joined(s.skip(1))
    }
}

proof fn lemma_scan_no_adjacent<T: DebugText>(s: Seq<T>, d: Seq<bool>, sep: Seq<char>, i: int)
    requires
        0 <= i < s.len(),
        forall|j: int| 0 <= j < d.len() ==> !(#[trigger] d[j]),
    ensures
        render_scan(s, d, sep, i, i) == comma_joined(s.skip(i)),
    decreases s.len() - i,
{
    let tail = s.skip(i);
    assert(tail.len() == s.len() - i);
    assert(tail[0] == s[i]);
    if i + 1 < s.len() {
        lemma_scan_no_adjacent(s, d, sep, i + 1);
        assert(tail.skip(1) =~= s.skip(i + 1));
        assert(render_scan(s, d, sep, i, i) == s[i].text_spec() + (run_gap() + comma_joined(
            s.skip(i + 1),
        )));
        assert(s[i].text_spec() + (run_gap() + comma_joined(s.skip(i + 1))) =~= tail[0].text_spec()
            + run_gap() + comma_joined(tail.skip(1)));
    } else {
        assert(render_scan(s, d, sep, i, i) =~= comma_joined(tail));
    }
}

/// When no decision holds, nothing is merged: the output is exactly the
/// naive `", "`-join of every element's text, in order.  Formatting such a
/// sequence is thus the same as never having looked for runs at all.
pub proof fn lemma_no_adjacent_pairs_joined<T: DebugText>(s: Seq<T>, d: Seq<bool>, sep: Seq<char>)
    requires
        forall|j: int| 0 <= j < d.len() ==> !(#[trigger] d[j]),
    ensures
        render_decisions(s, d, sep) == comma_joined(s),
{
    if s.len() > 0 {
        lemma_scan_no_adjacent(s, d, sep, 0);
        assert(s.skip(0) =~= s);
    }
}

/// The built-in-capability form of the same law: a sequence with zero
/// adjacent pairs renders as the plain `", "`-join of its texts.
pub proof fn lemma_no_adjacent_render_joined<T: DebugText + IsAdjacent>(s: Seq<T>, sep: Seq<char>)
    requires
        forall|j: int|
            0 <= j && j + 1 < s.len() ==> !(#[trigger] s[j].adjacent_spec(&s[j + 1])),
    ensures
        render_adjacent(s, sep) == comma_joined(s),
{
    let d = adjacency_decisions(s);
    assert forall|j: int| 0 <= j < d.len() implies !(#[trigger] d[j]) by {
        assert(!s[j].adjacent_spec(&s[j + 1]));
    }
    lemma_no_adjacent_pairs_joined(s, d, sep);
}

/// How one maximal run stands in the output.  The hypotheses speak only of
/// the consecutive pairwise decisions — the run `start..=end` is exactly a
/// maximal chain of them — and the conclusion shows the whole rendering as:
/// everything before the run, then `render_run` (the two endpoints around
/// `sep`, with no interior element), then `", "` and the rest if anything
/// follows.  In particular a chain groups into one run even where a decision
/// about non-consecutive elements, such as the run's first and last, would
/// never hold: grouping is strictly pairwise.
pub proof fn lemma_run_rendering<T: DebugText>(
    s: Seq<T>,
    d: Seq<bool>,
    sep: Seq<char>,
    start: int,
    end: int,
)
    requires
        d.len() == pair_count(s),
        0 <= start <= end < s.len(),
        forall|k: int| start <= k < end ==> #[trigger] d[k],
        start == 0 || !d[start - 1],
        end + 1 < s.len() ==> !d[end],
    ensures
        render_decisions(s, d, sep) == render_closed(s, d, sep, start) + render_run(
            s,
            start,
            end,
            sep,
        ) + (if end + 1 < s.len() {
            run_gap() + render_scan(s, d, sep, end + 1, end + 1)
        } else {
            Seq::<char>::empty()
        }),
{
    lemma_scan_run(s, d, sep, start, end, start);
    let run = render_run(s, start, end, sep);
    let after = if end + 1 < s.len() {
        run_gap() + render_scan(s, d, sep, end + 1, end + 1)
    } else {
        Seq::<char>::empty()
    };
    if start == 0 {
        assert(run + after =~= render_closed(s, d, sep, 0) + run + after);
    } else {
        lemma_scan_split(s, d, sep, 0, 0, start);
        assert(render_scan(s.take(start), d, sep, 0, 0) + run_gap() + (run + after) =~= (
        render_scan(s.take(start), d, sep, 0, 0) + run_gap()) + run + after);
    }
}

/// When the predicate is deterministic — every answer it can give equals a
/// fixed pointwise relation `p` — the decisions recorded for it, and with
/// them the output, are uniquely determined by `p`.
pub proof fn lemma_decisions_determined<T, F: Fn(&T, &T) -> bool>(
    f: F,
    s: Seq<T>,
    d: Seq<bool>,
    p: spec_fn(T, T) -> bool,
)
    requires
        decisions_for(f, s, d),
        forall|a: T, b: T, r: bool| #[trigger] call_ensures(f, (&a, &b), r) ==> r == p(a, b),
    ensures
        d == Seq::new(pair_count(s) as nat, |j: int| p(s[j], s[j + 1])),
{
    let e = Seq::new(pair_count(s) as nat, |j: int| p(s[j], s[j + 1]));
    assert forall|j: int| 0 <= j < d.len() implies d[j] == e[j] by {
        assert(call_ensures(f, (&s[j], &s[j + 1]), d[j]));
    }
    assert(d =~= e);
}

/// The scan shared by both formatters: one forward pass that asks `f` about
/// each consecutive pair exactly once, in order, and renders the runs those
/// answers delimit.
#[verifier::rlimit(60)]
fn render_with<T: DebugText, F: Fn(&T, &T) -> bool>(items: &[T], f: &F, sep: &str) -> (r: String)
    requires
        forall|j: int| #![trigger items@[j]]
            0 <= j && j + 1 < items@.len() ==> call_requires(*f, (&items@[j], &items@[j + 1])),
    ensures
        exists|d: Seq<bool>|
            decisions_for(*f, items@, d) && r@ == render_decisions(items@, d, sep@),
{
    let ghost s = items@;
    let mut out = String::new();
    let ghost mut d: Seq<bool> = Seq::empty();
    let mut i: usize = 0;
    let mut start: usize = 0;
    while i < items.len()
        invariant
            s == items@,
            start <= i <= s.len(),
            i < s.len() ==> d.len() == i,
            i >= s.len() ==> d.len() == pair_count(s) && start == i,
            forall|j: int| 0 <= j < d.len() ==> call_ensures(*f, (&s[j], &s[j + 1]), #[trigger] d[j]),
            forall|j: int| #![trigger s[j]] 0 <= j && j + 1 < s.len() ==> call_requires(*f, (&s[j], &s[j + 1])),
            forall|k: int| start <= k < i ==> #[trigger] d[k],
            0 < start && start < s.len() ==> !d[start - 1],
            start < s.len() ==> out@ == render_closed(s, d, sep@, start as int),
            i >= s.len() ==> out@ == render_decisions(s, d, sep@),
        decreases s.len() - i,
    {
        let ghost d0 = d;
        let mut extend = false;
        if i + 1 < items.len() {
            let b = (*f)(&items[i], &items[i + 1]);
            proof {
                d = d.push(b);
            }
            extend = b;
        }
        proof {
            assert(forall|k: int| 0 <= k < d0.len() ==> #[trigger] d[k] == d0[k]);
            if 0 < start {
                assert(s.take(start as int).len() == start);
                if d0 != d {
                    lemma_scan_push(s.take(start as int), d0, d[i as int], sep@, 0, 0);
                }
                assert(render_closed(s, d, sep@, start as int) == render_closed(
                    s,
                    d0,
                    sep@,
                    start as int,
                ));
            }
        }
        if extend {
            i = i + 1;
        } else {
            let first_text = items[start].debug_text();
            out.append(first_text.as_str());
            if i > start {
                out.append(sep);
                let last_text = items[i].debug_text();
                out.append(last_text.as_str());
            }
            let more = i + 1 < items.len();
            if more {
                out.append(", ");
            }
            proof {
                reveal_strlit(", ");
                assert(", "@ =~= run_gap());
                let cp = render_closed(s, d, sep@, start as int);
                let run = render_run(s, start as int, i as int, sep@);
                if more {
                    assert(out@ =~= cp + run + run_gap());
                } else {
                    assert(out@ =~= cp + run);
                }
                lemma_close_run(s, d, sep@, start as int, i as int);
            }
            i = i + 1;
            start = i;
        }
    }
    proof {
        assert(decisions_for(*f, items@, d) && out@ == render_decisions(items@, d, sep@));
    }
    out
}

/// Displays a list of values whose element type carries the built-in
/// adjacency capability.  Runs of contiguous (increasing) values are shown
/// in `start-end` notation rather than value by value.
#[derive(Clone, Copy)]
pub struct DebugAdjacent<'a, T> {
    /// The items that will be displayed
    pub items: &'a [T],
    /// The separator between the first and last item in a range.
    pub sep: &'a str,
}

impl<'a, T> DebugAdjacent<'a, T> {
    /// Constructor
    pub fn new(items: &'a [T]) -> (r: Self)
        ensures
            r.items@ == items@,
            r.sep@ == seq!['-'],
    {
        proof {
            reveal_strlit("-");
        }
        let r = DebugAdjacent { items, sep: "-" };
        proof {
            assert(r.sep@ =~= seq!['-']);
        }
        r
    }
}

impl<'a, T: DebugText + IsAdjacent> DebugAdjacent<'a, T> {
    /// Renders the list, collapsing every maximal chain of values in which
    /// each one is adjacent to the next.
    pub fn render(&self) -> (r: String)
        ensures
            r@ == render_adjacent(self.items@, self.sep@),
    {
        let pred = |a: &T, b: &T| -> (res: bool)
            ensures
                res == a.adjacent_spec(b),
            { a.is_adjacent(b) };
        let r = render_with(self.items, &pred, self.sep);
        proof {
            let s = self.items@;
            let d = choose|d: Seq<bool>|
                decisions_for(pred, s, d) && r@ == render_decisions(s, d, self.sep@);
            let a = adjacency_decisions(s);
            assert forall|j: int| 0 <= j < d.len() implies d[j] == a[j] by {
                assert(call_ensures(pred, (&s[j], &s[j + 1]), d[j]));
            }
            assert(d =~= a);
        }
        r
    }
}

/// Displays a list of values, deciding adjacency with a caller-supplied
/// predicate instead of the built-in capability.
#[derive(Clone, Copy)]
pub struct DebugAdjacentBy<'a, T, F> {
    /// The items that will be displayed
    pub items: &'a [T],
    /// The separator between the first and last item in a range.
    pub sep: &'a str,
    /// The function that tests for adjacency
    pub is_adjacent: F,
}

impl<'a, T, F> DebugAdjacentBy<'a, T, F> {
    /// Constructor
    pub fn new(items: &'a [T], is_adjacent: F) -> (r: Self) where F: Fn(&T, &T) -> bool
        ensures
            r.items@ == items@,
            r.sep@ == seq!['-'],
            r.is_adjacent == is_adjacent,
    {
        proof {
            reveal_strlit("-");
        }
        let r = DebugAdjacentBy { items, is_adjacent, sep: "-" };
        proof {
            assert(r.sep@ =~= seq!['-']);
        }
        r
    }
}

impl<'a, T: DebugText, F: Fn(&T, &T) -> bool> DebugAdjacentBy<'a, T, F> {
    /// Renders the list, collapsing every maximal chain of values on which
    /// the predicate holds pairwise.  The grouping follows whatever answers
    /// the predicate gives on the consecutive pairs, in order — stated here
    /// as: some sequence of answers the predicate could have given fixes the
    /// output exactly.
    pub fn render(&self) -> (r: String)
        requires
            forall|j: int| #![trigger self.items@[j]]
                0 <= j && j + 1 < self.items@.len() ==> call_requires(
                    self.is_adjacent,
                    (&self.items@[j], &self.items@[j + 1]),
                ),
        ensures
            exists|d: Seq<bool>|
                decisions_for(self.is_adjacent, self.items@, d) && r@ == render_decisions(
                    self.items@,
                    d,
                    self.sep@,
                ),
    {
        render_with(self.items, &self.is_adjacent, self.sep)
    }
}

/// Returns a value that renders by collapsing runs of "adjacent" items,
/// with the built-in adjacency capability of `T`.
pub fn debug_adjacent<T: DebugText + IsAdjacent>(items: &[T]) -> (r: DebugAdjacent<'_, T>)
    ensures
        r.items@ == items@,
        r.sep@ == seq!['-'],
{
    DebugAdjacent::new(items)
}

/// Returns a value that renders by collapsing runs of "adjacent" items,
/// where the `is_adjacent` parameter defines whether two values in `T` are
/// adjacent.
pub fn debug_adjacent_by<T: DebugText, F: Fn(&T, &T) -> bool>(items: &[T], is_adjacent: F) -> (r:
    DebugAdjacentBy<'_, T, F>)
    ensures
        r.items@ == items@,
        r.sep@ == seq!['-'],
        r.is_adjacent == is_adjacent,
{
    DebugAdjacentBy::new(items, is_adjacent)
}

} // verus!
