use vstd::prelude::*;
use crate::target::Target;
use crate::tracker::{FailureWindow, TargetState};

verus! {

/// Reported downtime details for one target that accumulated at least one
/// failure window: the target, its windows in chronological order, and its
/// total downtime in time units.
pub struct ReportEntry {
    pub target: Target,
    pub windows: Vec<FailureWindow>,
    pub total_secs: i64,
}

/// The structured final report.  Rendering (icons, colors, alignment) is a
/// presentation concern outside the core.
pub enum Report {
    NoDowntime,
    Downtime { started_at: i64, entries: Vec<ReportEntry>, total_secs: i64 },
}

/// Sum of reported durations over a window list.
pub open spec fn spec_total(ws: Seq<FailureWindow>) -> int
    decreases ws.len(),
{
    if ws.len() == 0 {
        0
    } else {
        spec_total(ws.drop_last()) + ws.last().spec_duration()
    }
}

/// Time of a target's first failure; meaningful once it has a window.
pub open spec fn first_start(s: TargetState) -> int {
    s.failures@[0].start as int
}

/// The states that accumulated at least one failure window, in their
/// original target order.
pub open spec fn spec_failing(ss: Seq<TargetState>) -> Seq<TargetState>
    decreases ss.len(),
{
    if ss.len() == 0 {
        Seq::empty()
    } else if ss.last().failures@.len() > 0 {
        spec_failing(ss.drop_last()).push(ss.last())
    } else {
        spec_failing(ss.drop_last())
    }
}

/// Insert one state behind every already-placed state whose first-failure
/// time is not later: the insertion step of a stable sort.
pub open spec fn spec_insert_sorted(sorted: Seq<TargetState>, s: TargetState) -> Seq<TargetState>
    decreases sorted.len(),
{
    if sorted.len() == 0 {
        seq![s]
    } else if first_start(sorted.last()) <= first_start(s) {
        sorted.push(s)
    } else {
        spec_insert_sorted(sorted.drop_last(), s).push(sorted.last())
    }
}

/// Stable insertion sort, ascending by first-failure time: equal keys keep
/// their original relative order.
pub open spec fn spec_sort(ss: Seq<TargetState>) -> Seq<TargetState>
    decreases ss.len(),
{
    if ss.len() == 0 {
        Seq::empty()
    } else {
        spec_insert_sorted(spec_sort(ss.drop_last()), ss.last())
    }
}

/// Grand total downtime over a list of states.
pub open spec fn spec_grand_total(ss: Seq<TargetState>) -> int
    decreases ss.len(),
{
    if ss.len() == 0 {
        0
    } else {
        spec_grand_total(ss.drop_last()) + spec_total(ss.last().failures@)
    }
}

/// Non-decreasing by time of first failure.
pub open spec fn key_sorted(ss: Seq<TargetState>) -> bool {
    forall|i: int, j: int|
        #![trigger ss[i], ss[j]]
        0 <= i < j < ss.len() ==> first_start(ss[i]) <= first_start(ss[j])
}

/// Everything the final report must say of the final states.  `NoDowntime`
/// is owed exactly when no target accumulated a window; otherwise the entries
/// are the failing states, stably sorted by first failure, each with its
/// windows and total, the overall start is the head's first failure, and the
/// grand total sums the entries.
pub open spec fn report_matches(states: Seq<TargetState>, r: Report) -> bool {
    let sorted = spec_sort(spec_failing(states));
    match r {
        Report::NoDowntime => sorted.len() == 0,
        Report::Downtime { started_at, entries, total_secs } => {
            &&& sorted.len() > 0
            &&& entries@.len() == sorted.len()
            &&& forall|k: int|
                0 <= k < sorted.len() ==> (#[trigger] entries@[k]).target == sorted[k].target
            &&& forall|k: int|
                0 <= k < sorted.len() ==> (#[trigger] entries@[k]).windows@ == sorted[k].failures@
            &&& forall|k: int|
                0 <= k < sorted.len() ==> (#[trigger] entries@[k]).total_secs == spec_total(
                    sorted[k].failures@,
                )
            &&& started_at == first_start(sorted[0])
            &&& total_secs == spec_grand_total(sorted)
        },
    }
}

/// Window totals are nonnegative.
proof fn lemma_total_nonneg(ws: Seq<FailureWindow>)
    ensures
        spec_total(ws) >= 0,
    decreases ws.len(),
{
    if ws.len() > 0 {
        lemma_total_nonneg(ws.drop_last());
    }
}

/// Unfolding a window total one prefix element at a time.
proof fn lemma_total_take_succ(ws: Seq<FailureWindow>, i: int)
    requires
        0 <= i < ws.len(),
    ensures
        spec_total(ws.take(i + 1)) == spec_total(ws.take(i)) + ws[i].spec_duration(),
{
    assert(ws.take(i + 1).drop_last() =~= ws.take(i));
    assert(ws.take(i + 1).last() == ws[i]);
}

/// A prefix never sums to more than the whole window list.
proof fn lemma_total_take_le(ws: Seq<FailureWindow>, i: int)
    requires
        0 <= i <= ws.len(),
    ensures
        spec_total(ws.take(i)) <= spec_total(ws),
    decreases ws.len() - i,
{
    if i == ws.len() {
        assert(ws.take(i) =~= ws);
    } else {
        lemma_total_take_le(ws, i + 1);
        lemma_total_take_succ(ws, i);
    }
}

/// Grand totals are nonnegative.
proof fn lemma_grand_nonneg(ss: Seq<TargetState>)
    ensures
        spec_grand_total(ss) >= 0,
    decreases ss.len(),
{
    if ss.len() > 0 {
        lemma_grand_nonneg(ss.drop_last());
        lemma_total_nonneg(ss.last().failures@);
    }
}

/// Unfolding a grand total one prefix element at a time.
proof fn lemma_grand_take_succ(ss: Seq<TargetState>, i: int)
    requires
        0 <= i < ss.len(),
    ensures
        spec_grand_total(ss.take(i + 1)) == spec_grand_total(ss.take(i)) + spec_total(
            ss[i].failures@,
        ),
{
    assert(ss.take(i + 1).drop_last() =~= ss.take(i));
    assert(ss.take(i + 1).last() == ss[i]);
}

/// A prefix never sums to more than the whole state list.
proof fn lemma_grand_take_le(ss: Seq<TargetState>, i: int)
    requires
        0 <= i <= ss.len(),
    ensures
        spec_grand_total(ss.take(i)) <= spec_grand_total(ss),
    decreases ss.len() - i,
{
    if i == ss.len() {
        assert(ss.take(i) =~= ss);
    } else {
        lemma_grand_take_le(ss, i + 1);
        lemma_grand_take_succ(ss, i);
        lemma_total_nonneg(ss[i].failures@);
    }
}

/// One state's total never exceeds the grand total it is part of.
proof fn lemma_element_total_le(ss: Seq<TargetState>, i: int)
    requires
        0 <= i < ss.len(),
    ensures
        spec_total(ss[i].failures@) <= spec_grand_total(ss),
    decreases ss.len(),
{
    if i == ss.len() - 1 {
        lemma_grand_nonneg(ss.drop_last());
    } else {
        lemma_element_total_le(ss.drop_last(), i);
        lemma_total_nonneg(ss.last().failures@);
        assert(ss.drop_last()[i] == ss[i]);
    }
}

/// Inserting a state adds exactly its total to the grand total.
proof fn lemma_grand_insert(ss: Seq<TargetState>, s: TargetState)
    ensures
        spec_grand_total(spec_insert_sorted(ss, s)) == spec_grand_total(ss) + spec_total(
            s.failures@,
        ),
    decreases ss.len(),
{
    if ss.len() == 0 {
        assert(spec_insert_sorted(ss, s).drop_last() =~= ss);
    } else if first_start(ss.last()) <= first_start(s) {
        assert(ss.push(s).drop_last() =~= ss);
    } else {
        lemma_grand_insert(ss.drop_last(), s);
        let r = spec_insert_sorted(ss.drop_last(), s).push(ss.last());
        assert(r.drop_last() =~= spec_insert_sorted(ss.drop_last(), s));
        assert(r.last() == ss.last());
    }
}

/// Sorting does not change the grand total.
proof fn lemma_grand_sort(ss: Seq<TargetState>)
    ensures
        spec_grand_total(spec_sort(ss)) == spec_grand_total(ss),
    decreases ss.len(),
{
    if ss.len() > 0 {
        lemma_grand_sort(ss.drop_last());
        lemma_grand_insert(spec_sort(ss.drop_last()), ss.last());
    }
}

/// Dropping windowless states does not change the grand total.
proof fn lemma_grand_failing(ss: Seq<TargetState>)
    ensures
        spec_grand_total(spec_failing(ss)) == spec_grand_total(ss),
    decreases ss.len(),
{
    if ss.len() > 0 {
        lemma_grand_failing(ss.drop_last());
        if ss.last().failures@.len() > 0 {
            let r = spec_failing(ss.drop_last()).push(ss.last());
            assert(r.drop_last() =~= spec_failing(ss.drop_last()));
            assert(r.last() == ss.last());
        }
    }
}

/// `spec_insert_sorted` keeps the list sorted, grows it by one, and holds
/// exactly the old elements plus the new one.
proof fn lemma_insert_sorted_props(ss: Seq<TargetState>, s: TargetState)
    requires
        key_sorted(ss),
    ensures
        key_sorted(spec_insert_sorted(ss, s)),
        spec_insert_sorted(ss, s).len() == ss.len() + 1,
        forall|x: TargetState|
            #[trigger] spec_insert_sorted(ss, s).contains(x) <==> (ss.contains(x) || x == s),
    decreases ss.len(),
{
    let r = spec_insert_sorted(ss, s);
    if ss.len() == 0 {
        assert(r[0] == s);
        assert forall|x: TargetState| #[trigger] r.contains(x) implies (ss.contains(x) || x == s) by {
            let w = choose|w: int| 0 <= w < r.len() && r[w] == x;
            assert(r[w] == s);
        }
        assert(r.contains(s));
    } else if first_start(ss.last()) <= first_start(s) {
        assert forall|i: int, j: int|
            #![trigger r[i], r[j]]
            0 <= i < j < r.len() implies first_start(r[i]) <= first_start(r[j]) by {
            if j < ss.len() {
                assert(r[i] == ss[i] && r[j] == ss[j]);
            } else {
                assert(r[j] == s);
                if i < ss.len() - 1 {
                    assert(first_start(ss[i]) <= first_start(ss[ss.len() - 1]));
                }
            }
        }
        assert forall|x: TargetState| #[trigger] r.contains(x) implies (ss.contains(x) || x == s) by {
            let w = choose|w: int| 0 <= w < r.len() && r[w] == x;
            if w < ss.len() {
                assert(ss[w] == x);
            }
        }
        assert forall|x: TargetState| ss.contains(x) || x == s implies #[trigger] r.contains(x) by {
            if ss.contains(x) {
                let w = choose|w: int| 0 <= w < ss.len() && ss[w] == x;
                assert(r[w] == x);
            } else {
                assert(r[ss.len() as int] == x);
            }
        }
    } else {
        lemma_insert_sorted_props(ss.drop_last(), s);
        let rp = spec_insert_sorted(ss.drop_last(), s);
        assert(r == rp.push(ss.last()));
        assert forall|i: int, j: int|
            #![trigger r[i], r[j]]
            0 <= i < j < r.len() implies first_start(r[i]) <= first_start(r[j]) by {
            if j < rp.len() {
                assert(r[i] == rp[i] && r[j] == rp[j]);
            } else {
                assert(r[j] == ss.last());
                assert(r[i] == rp[i]);
                assert(rp.contains(rp[i]));
                if ss.drop_last().contains(rp[i]) {
                    let w = choose|w: int| 0 <= w < ss.drop_last().len() && ss.drop_last()[w] == rp[i];
                    assert(ss[w] == rp[i]);
                    assert(first_start(ss[w]) <= first_start(ss[ss.len() - 1]));
                } else {
                    assert(rp[i] == s);
                }
            }
        }
        assert forall|x: TargetState| #[trigger] r.contains(x) implies (ss.contains(x) || x == s) by {
            let w = choose|w: int| 0 <= w < r.len() && r[w] == x;
            if w < rp.len() {
                assert(rp.contains(rp[w]));
                if ss.drop_last().contains(x) {
                    let v = choose|v: int| 0 <= v < ss.drop_last().len() && ss.drop_last()[v] == x;
                    assert(ss[v] == x);
                }
            } else {
                assert(x == ss.last());
                assert(ss[ss.len() - 1] == x);
            }
        }
        assert forall|x: TargetState| ss.contains(x) || x == s implies #[trigger] r.contains(x) by {
            if x == s {
                assert(rp.contains(s));
                let w = choose|w: int| 0 <= w < rp.len() && rp[w] == x;
                assert(r[w] == x);
            } else {
                let w = choose|w: int| 0 <= w < ss.len() && ss[w] == x;
                if w < ss.len() - 1 {
                    assert(ss.drop_last()[w] == x);
                    assert(rp.contains(x));
                    let v = choose|v: int| 0 <= v < rp.len() && rp[v] == x;
                    assert(r[v] == x);
                } else {
                    assert(r[r.len() - 1] == x);
                }
            }
        }
    }
}

/// The sorted list is sorted, keeps its length, and holds exactly the
/// elements of the input.
proof fn lemma_sort_props(ss: Seq<TargetState>)
    ensures
        key_sorted(spec_sort(ss)),
        spec_sort(ss).len() == ss.len(),
        forall|x: TargetState| #[trigger] spec_sort(ss).contains(x) <==> ss.contains(x),
    decreases ss.len(),
{
    if ss.len() == 0 {
        assert forall|x: TargetState| #[trigger] spec_sort(ss).contains(x) implies ss.contains(x) by {
            let w = choose|w: int| 0 <= w < spec_sort(ss).len() && spec_sort(ss)[w] == x;
        }
        assert forall|x: TargetState| ss.contains(x) implies #[trigger] spec_sort(ss).contains(x) by {
            let w = choose|w: int| 0 <= w < ss.len() && ss[w] == x;
        }
    } else {
        lemma_sort_props(ss.drop_last());
        lemma_insert_sorted_props(spec_sort(ss.drop_last()), ss.last());
        assert forall|x: TargetState| #[trigger] spec_sort(ss).contains(x) implies ss.contains(x) by {
            if spec_sort(ss.drop_last()).contains(x) {
                let w = choose|w: int| 0 <= w < ss.drop_last().len() && ss.drop_last()[w] == x;
                assert(ss[w] == x);
            } else {
                assert(ss[ss.len() - 1] == x);
            }
        }
        assert forall|x: TargetState| ss.contains(x) implies #[trigger] spec_sort(ss).contains(x) by {
            let w = choose|w: int| 0 <= w < ss.len() && ss[w] == x;
            if w < ss.len() - 1 {
                assert(ss.drop_last()[w] == x);
            } else {
                assert(x == ss.last());
            }
        }
    }
}

/// A state with a window ends up among the failing states.
proof fn lemma_failing_contains(ss: Seq<TargetState>, i: int)
    requires
        0 <= i < ss.len(),
        ss[i].failures@.len() > 0,
    ensures
        spec_failing(ss).contains(ss[i]),
    decreases ss.len(),
{
    if i == ss.len() - 1 {
        let r = spec_failing(ss);
        assert(r[r.len() - 1] == ss[i]);
    } else {
        assert(ss.drop_last()[i] == ss[i]);
        lemma_failing_contains(ss.drop_last(), i);
        let rp = spec_failing(ss.drop_last());
        let w = choose|w: int| 0 <= w < rp.len() && rp[w] == ss[i];
        if ss.last().failures@.len() > 0 {
            assert(rp.push(ss.last())[w] == ss[i]);
        }
    }
}

/// No target accumulated a window exactly when the failing list is empty.
pub proof fn lemma_no_downtime_iff(ss: Seq<TargetState>)
    ensures
        spec_failing(ss).len() == 0 <==> (forall|i: int|
            0 <= i < ss.len() ==> (#[trigger] ss[i]).failures@.len() == 0),
    decreases ss.len(),
{
    if ss.len() > 0 {
        lemma_no_downtime_iff(ss.drop_last());
        if spec_failing(ss).len() == 0 {
            assert forall|i: int| 0 <= i < ss.len() implies (#[trigger] ss[i]).failures@.len()
                == 0 by {
                if i < ss.len() - 1 {
                    assert(ss.drop_last()[i] == ss[i]);
                }
            }
        } else {
            if !(forall|i: int| 0 <= i < ss.len() ==> (#[trigger] ss[i]).failures@.len() == 0) {
            }
        }
        if (forall|i: int| 0 <= i < ss.len() ==> (#[trigger] ss[i]).failures@.len() == 0) {
            assert(ss.last().failures@.len() == 0);
            assert forall|i: int|
                0 <= i < ss.drop_last().len() implies (#[trigger] ss.drop_last()[i]).failures@.len()
                == 0 by {
                assert(ss.drop_last()[i] == ss[i]);
            }
        }
    }
}

/// Sorting law of the report: the entries of the sorted order are ascending
/// by first-failure time, and the head's first failure is the minimum over
/// every target that accumulated a window.
pub proof fn lemma_sorted_entries_min(ss: Seq<TargetState>)
    ensures
        key_sorted(spec_sort(spec_failing(ss))),
        forall|i: int|
            0 <= i < ss.len() && (#[trigger] ss[i]).failures@.len() > 0 ==> spec_sort(
                spec_failing(ss),
            ).len() > 0 && first_start(spec_sort(spec_failing(ss))[0]) <= first_start(ss[i]),
{
    lemma_sort_props(spec_failing(ss));
    let sorted = spec_sort(spec_failing(ss));
    assert forall|i: int|
        0 <= i < ss.len() && (#[trigger] ss[i]).failures@.len() > 0 implies sorted.len() > 0
        && first_start(sorted[0]) <= first_start(ss[i]) by {
        lemma_failing_contains(ss, i);
        assert(sorted.contains(ss[i]));
        let w = choose|w: int| 0 <= w < sorted.len() && sorted[w] == ss[i];
        if w > 0 {
            assert(first_start(sorted[0]) <= first_start(sorted[w]));
        }
    }
}

/// Read a target's first-failure time.
fn first_start_of(s: &TargetState) -> (t: i64)
    requires
        s.failures@.len() > 0,
    ensures
        t == first_start(*s),
{
    s.failures[0].start
}

/// Total a window list, watching for arithmetic overflow: `None` exactly
/// when the sum would not fit an `i64`.
fn sum_windows_checked(ws: &Vec<FailureWindow>) -> (r: Option<i64>)
    requires
        forall|i: int| 0 <= i < ws@.len() ==> (#[trigger] ws@[i]).wf(),
    ensures
        r matches Some(t) ==> t == spec_total(ws@) && spec_total(ws@) <= i64::MAX,
        r is None ==> spec_total(ws@) > i64::MAX,
{
    let mut acc: i64 = 0;
    let mut i: usize = 0;
    proof {
        assert(ws@.take(0) =~= Seq::<FailureWindow>::empty());
    }
    while i < ws.len()
        invariant
            i <= ws@.len(),
            forall|j: int| 0 <= j < ws@.len() ==> (#[trigger] ws@[j]).wf(),
            acc == spec_total(ws@.take(i as int)),
            acc >= 0,
        decreases ws@.len() - i,
    {
        let d = ws[i].duration_secs();
        proof {
            lemma_total_take_succ(ws@, i as int);
        }
        if acc > i64::MAX - d {
            proof {
                lemma_total_take_le(ws@, i as int + 1);
            }
            return None;
        }
        acc = acc + d;
        i += 1;
    }
    proof {
        assert(ws@.take(ws@.len() as int) =~= ws@);
    }
    Some(acc)
}

/// True exactly when the report's grand total fits an `i64`.  The monitor's
/// caller checks this once before building the report; with second-scale
/// timestamps it can only fail on absurd inputs.
pub fn report_total_fits(states: &Vec<TargetState>) -> (b: bool)
    requires
        forall|i: int| 0 <= i < states@.len() ==> (#[trigger] states@[i]).wf(),
    ensures
        b == (spec_grand_total(spec_sort(spec_failing(states@))) <= i64::MAX),
{
    proof {
        lemma_grand_sort(spec_failing(states@));
        lemma_grand_failing(states@);
        assert(states@.take(0) =~= Seq::<TargetState>::empty());
    }
    let mut acc: i64 = 0;
    let mut i: usize = 0;
    while i < states.len()
        invariant
            i <= states@.len(),
            forall|j: int| 0 <= j < states@.len() ==> (#[trigger] states@[j]).wf(),
            acc == spec_grand_total(states@.take(i as int)),
            acc >= 0,
            spec_grand_total(spec_sort(spec_failing(states@))) == spec_grand_total(states@),
        decreases states@.len() - i,
    {
        proof {
            lemma_grand_take_succ(states@, i as int);
        }
        let t = match sum_windows_checked(&states[i].failures) {
            Some(t) => t,
            None => {
                proof {
                    lemma_grand_take_le(states@, i as int + 1);
                    lemma_total_nonneg(states@[i as int].failures@);
                    lemma_grand_nonneg(states@.take(i as int));
                }
                return false;
            },
        };
        proof {
            lemma_total_nonneg(states@[i as int].failures@);
        }
        if acc > i64::MAX - t {
            proof {
                lemma_grand_take_le(states@, i as int + 1);
            }
            return false;
        }
        acc = acc + t;
        i += 1;
    }
    proof {
        assert(states@.take(states@.len() as int) =~= states@);
    }
    true
}

/// Build the structured final report from the final tracker states.
///
/// Targets without a window yield `NoDowntime`; otherwise the failing
/// targets are sorted ascending by the start of their first window (stable:
/// equal starts keep target order), the overall "failures began" time is the
/// head's first start, each entry carries the target's windows and their
/// total `max(1, end - start)` downtime, and the grand total sums the
/// entries.
pub fn build_report(states: Vec<TargetState>) -> (r: Report)
    requires
        forall|i: int| 0 <= i < states@.len() ==> (#[trigger] states@[i]).wf(),
        spec_grand_total(spec_sort(spec_failing(states@))) <= i64::MAX,
    ensures
        report_matches(states@, r),
        (r matches Report::NoDowntime) <==> (forall|i: int|
            0 <= i < states@.len() ==> (#[trigger] states@[i]).failures@.len() == 0),
        r matches Report::Downtime { started_at, .. } ==> forall|i: int|
            0 <= i < states@.len() && (#[trigger] states@[i]).failures@.len() > 0 ==> started_at
                <= first_start(states@[i]),
{
    let ghost orig = states@;
    proof {
        lemma_no_downtime_iff(orig);
        lemma_sorted_entries_min(orig);
    }
    let mut remaining = states;

    // Keep only the targets that accumulated at least one window.
    let mut failing: Vec<TargetState> = Vec::new();
    let ghost mut k: int = 0;
    proof {
        assert(orig.take(0) =~= Seq::<TargetState>::empty());
        assert(remaining@ =~= orig.skip(0));
    }
    while remaining.len() > 0
        invariant
            0 <= k,
            k + remaining@.len() == orig.len(),
            remaining@ == orig.skip(k),
            failing@ == spec_failing(orig.take(k)),
            forall|i: int| 0 <= i < orig.len() ==> (#[trigger] orig[i]).wf(),
            forall|j: int|
                0 <= j < failing@.len() ==> (#[trigger] failing@[j]).wf()
                    && failing@[j].failures@.len() > 0,
        decreases remaining@.len(),
    {
        let ghost before = remaining@;
        let s = remaining.remove(0);
        proof {
            assert(before[0] == orig[k]);
            assert(remaining@ =~= orig.skip(k + 1));
            assert(orig.take(k + 1).drop_last() =~= orig.take(k));
            assert(orig.take(k + 1).last() == orig[k]);
        }
        if s.failures.len() > 0 {
            failing.push(s);
        }
        proof { k = k + 1; }
    }
    proof {
        assert(orig.take(orig.len() as int) =~= orig);
    }

    if failing.len() == 0 {
        return Report::NoDowntime;
    }

    // Stable insertion sort, ascending by first-failure time.
    let ghost fseq = failing@;
    let mut sorted: Vec<TargetState> = Vec::new();
    let ghost mut k2: int = 0;
    proof {
        assert(fseq.take(0) =~= Seq::<TargetState>::empty());
        assert(failing@ =~= fseq.skip(0));
    }
    while failing.len() > 0
        invariant
            0 <= k2,
            k2 + failing@.len() == fseq.len(),
            failing@ == fseq.skip(k2),
            sorted@ == spec_sort(fseq.take(k2)),
            key_sorted(sorted@),
            forall|j: int|
                0 <= j < fseq.len() ==> (#[trigger] fseq[j]).wf() && fseq[j].failures@.len() > 0,
            forall|j: int|
                0 <= j < sorted@.len() ==> (#[trigger] sorted@[j]).wf()
                    && sorted@[j].failures@.len() > 0,
        decreases failing@.len(),
    {
        let ghost before = failing@;
        let s = failing.remove(0);
        proof {
            assert(before[0] == fseq[k2]);
            assert(failing@ =~= fseq.skip(k2 + 1));
            assert(fseq.take(k2 + 1).drop_last() =~= fseq.take(k2));
            assert(fseq.take(k2 + 1).last() == fseq[k2]);
        }
        let key = first_start_of(&s);
        let ghost sorted_before = sorted@;
        let mut j: usize = sorted.len();
        while j > 0 && first_start_of(&sorted[j - 1]) > key
            invariant
                j <= sorted@.len(),
                sorted@ == sorted_before,
                key == first_start(s),
                forall|jj: int|
                    0 <= jj < sorted@.len() ==> (#[trigger] sorted@[jj]).wf()
                        && sorted@[jj].failures@.len() > 0,
                forall|m: int| j <= m < sorted@.len() ==> first_start(#[trigger] sorted@[m]) > key,
            decreases j,
        {
            j -= 1;
        }
        sorted.insert(j, s);
        proof {
            lemma_insert_sorted_props(sorted_before, s);
            lemma_insert_at(sorted_before, s, j as int);
            assert(sorted@ == spec_sort(fseq.take(k2 + 1)));
            assert forall|jj: int|
                0 <= jj < sorted@.len() implies (#[trigger] sorted@[jj]).wf()
                && sorted@[jj].failures@.len() > 0 by {
                assert(sorted@.contains(sorted@[jj]));
                if sorted_before.contains(sorted@[jj]) {
                    let w = choose|w: int|
                        0 <= w < sorted_before.len() && sorted_before[w] == sorted@[jj];
                }
            }
        }
        proof { k2 = k2 + 1; }
    }
    proof {
        assert(fseq.take(fseq.len() as int) =~= fseq);
    }
    let ghost sseq = sorted@;

    // The head of the sorted order marks when failures began.
    let started_at = first_start_of(&sorted[0]);

    // Emit the entries in sorted order, summing as we go.
    let mut entries: Vec<ReportEntry> = Vec::new();
    let mut grand: i64 = 0;
    let ghost mut k3: int = 0;
    proof {
        assert(sseq.take(0) =~= Seq::<TargetState>::empty());
        assert(sorted@ =~= sseq.skip(0));
        lemma_grand_nonneg(sseq.take(0));
    }
    while sorted.len() > 0
        invariant
            0 <= k3,
            k3 + sorted@.len() == sseq.len(),
            sorted@ == sseq.skip(k3),
            entries@.len() == k3,
            grand == spec_grand_total(sseq.take(k3)),
            grand >= 0,
            spec_grand_total(sseq) <= i64::MAX,
            forall|j: int|
                0 <= j < sseq.len() ==> (#[trigger] sseq[j]).wf() && sseq[j].failures@.len() > 0,
            forall|m: int| 0 <= m < k3 ==> (#[trigger] entries@[m]).target == sseq[m].target,
            forall|m: int| 0 <= m < k3 ==> (#[trigger] entries@[m]).windows@ == sseq[m].failures@,
            forall|m: int|
                0 <= m < k3 ==> (#[trigger] entries@[m]).total_secs == spec_total(
                    sseq[m].failures@,
                ),
        decreases sorted@.len(),
    {
        let ghost before = sorted@;
        let s = sorted.remove(0);
        proof {
            assert(before[0] == sseq[k3]);
            assert(sorted@ =~= sseq.skip(k3 + 1));
            lemma_grand_take_succ(sseq, k3);
            lemma_grand_take_le(sseq, k3 + 1);
            lemma_element_total_le(sseq, k3);
            lemma_total_nonneg(sseq[k3].failures@);
        }
        let total = match sum_windows_checked(&s.failures) {
            Some(t) => t,
            None => {
                // Unreachable: each target's total is bounded by the grand
                // total, which the precondition keeps within range.
                proof {
                    assert(false);
                }
                0
            },
        };
        let TargetState { target, is_failing: _, failures } = s;
        entries.push(ReportEntry { target, windows: failures, total_secs: total });
        grand = grand + total;
        proof { k3 = k3 + 1; }
    }
    proof {
        assert(sseq.take(sseq.len() as int) =~= sseq);
    }

    Report::Downtime { started_at, entries, total_secs: grand }
}

/// `spec_insert_sorted` lands the new state exactly where the scan from the
/// right stops: after every element with a key not above the new one.
proof fn lemma_insert_at(sorted: Seq<TargetState>, s: TargetState, j: int)
    requires
        key_sorted(sorted),
        0 <= j <= sorted.len(),
        forall|m: int| j <= m < sorted.len() ==> first_start(#[trigger] sorted[m]) > first_start(s),
        j > 0 ==> first_start(sorted[j - 1]) <= first_start(s),
    ensures
        spec_insert_sorted(sorted, s) =~= sorted.insert(j, s),
    decreases sorted.len(),
{
    if sorted.len() == 0 {
    } else if first_start(sorted.last()) <= first_start(s) {
        assert(j == sorted.len());
        assert(sorted.push(s) =~= sorted.insert(j, s));
    } else {
        assert(j < sorted.len());
        lemma_insert_at(sorted.drop_last(), s, j);
        assert(spec_insert_sorted(sorted.drop_last(), s).push(sorted.last()) =~= sorted.insert(
            j,
            s,
        ));
    }
}

} // verus!
