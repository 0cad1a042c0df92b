use vstd::prelude::*;
use crate::target::Target;

verus! {

/// One contiguous interval during which a target was observed unhealthy on
/// every tick inside it.  Timestamps are whole time units (seconds) since a
/// fixed epoch; the monitor only ever produces nonnegative ones.
#[derive(Clone, Copy, PartialEq, Eq, Structural, Debug)]
pub struct FailureWindow {
    pub start: i64,
    pub end: i64,
}

impl FailureWindow {
    /// A well-formed window has a nonnegative start and does not end before
    /// it starts.
    pub open spec fn wf(self) -> bool {
        0 <= self.start <= self.end
    }

    /// Reported length of the window: at least one time unit, so that a
    /// single instantaneous transition never yields a degenerate zero-length
    /// window.
    pub open spec fn spec_duration(self) -> int {
        if self.end - self.start < 1 {
            1
        } else {
            self.end - self.start
        }
    }

    pub fn duration_secs(&self) -> (d: i64)
        requires
            self.wf(),
        ensures
            d == self.spec_duration(),
    {
        let diff = self.end - self.start;
        if diff < 1 {
            1
        } else {
            diff
        }
    }
}

/// The shape a tracker's window list always has: every window well-formed,
/// and each window closed strictly before the next one starts, so the list is
/// non-overlapping and strictly ordered by `start`.
pub open spec fn windows_wf(ws: Seq<FailureWindow>) -> bool {
    &&& forall|i: int| 0 <= i < ws.len() ==> (#[trigger] ws[i]).wf()
    &&& forall|i: int, j: int|
        #![trigger ws[i], ws[j]]
        0 <= i < j < ws.len() ==> ws[i].end < ws[j].start
}

/// All per-target tracking state: the target itself, whether it is currently
/// failing, and the chronological, append-only list of failure windows.  The
/// last window is still open (being extended) exactly while `is_failing`.
pub struct TargetState {
    pub target: Target,
    pub is_failing: bool,
    pub failures: Vec<FailureWindow>,
}

/// One transition of the per-target state machine, at the spec level: given
/// the current failing flag and window list, a tick's boolean result and the
/// tick's timestamp, yield the next flag and window list.
///
/// While failing, the open (last) window's `end` is stamped with `now`
/// whether the tick failed again or recovered; recovery merely flips the flag
/// back to healthy, deliberately absorbing one tick of detection lag into the
/// window.  A failure observed while healthy opens a fresh window at `now`.
pub open spec fn spec_step(failing: bool, ws: Seq<FailureWindow>, ok: bool, now: i64) -> (bool, Seq<
    FailureWindow,
>) {
    if failing {
        (!ok, ws.update(ws.len() - 1, FailureWindow { start: ws.last().start, end: now }))
    } else if ok {
        (false, ws)
    } else {
        (true, ws.push(FailureWindow { start: now, end: now }))
    }
}

impl TargetState {
    pub open spec fn wf(self) -> bool {
        &&& windows_wf(self.failures@)
        &&& self.is_failing ==> self.failures@.len() > 0
    }

    /// End of the most recent window, or -1 if none exists yet.  Every
    /// timestamp the tracker has recorded so far is at most this value, so a
    /// strictly larger tick timestamp is always safe to feed in.
    pub open spec fn latest_end(self) -> int {
        if self.failures@.len() == 0 {
            -1
        } else {
            self.failures@.last().end as int
        }
    }

    /// A fresh tracker: healthy, with no windows.
    pub fn new(target: Target) -> (s: TargetState)
        ensures
            s.wf(),
            s.target == target,
            !s.is_failing,
            s.failures@.len() == 0,
    {
        TargetState { target, is_failing: false, failures: Vec::new() }
    }

    /// Feed one tick's boolean result, observed at time `now`, into this
    /// target's tracker.  The transition is exactly `spec_step`; the window
    /// count grows precisely on a Healthy-to-Failing transition.
    pub fn update(&mut self, ok: bool, now: i64)
        requires
            old(self).wf(),
            now > old(self).latest_end(),
            now >= 0,
        ensures
            final(self).wf(),
            final(self).target == old(self).target,
            final(self).is_failing == !ok,
            final(self).latest_end() <= now,
            (final(self).is_failing, final(self).failures@) == spec_step(
                old(self).is_failing,
                old(self).failures@,
                ok,
                now,
            ),
            final(self).failures@.len() == old(self).failures@.len() + (
            if !old(self).is_failing && !ok {
                1int
            } else {
                0int
            }),
    {
        if self.is_failing {
            // The last window is open: stamp its end with this tick's time,
            // and close it (flip back to healthy) if the tick succeeded.
            let mut w = self.failures.pop().unwrap();
            w.end = now;
            self.failures.push(w);
            if ok {
                self.is_failing = false;
            }
            proof {
                assert(self.failures@ =~= old(self).failures@.update(
                    old(self).failures@.len() - 1,
                    FailureWindow { start: old(self).failures@.last().start, end: now },
                ));
            }
        } else if !ok {
            // Healthy target observed failing: open a new window at `now`.
            self.failures.push(FailureWindow { start: now, end: now });
            self.is_failing = true;
        }
    }

    /// At shutdown, force a still-open window's `end` to the shutdown
    /// timestamp, so that no window is left semantically unterminated before
    /// the report runs.  A healthy tracker is left untouched.
    pub fn close_at(&mut self, now: i64)
        requires
            old(self).wf(),
            now >= old(self).latest_end(),
        ensures
            final(self).wf(),
            final(self).target == old(self).target,
            final(self).is_failing == old(self).is_failing,
            final(self).latest_end() <= now,
            old(self).is_failing ==> final(self).failures@ == old(self).failures@.update(
                old(self).failures@.len() - 1,
                FailureWindow { start: old(self).failures@.last().start, end: now },
            ),
            !old(self).is_failing ==> final(self).failures@ == old(self).failures@,
    {
        if self.is_failing {
            let mut w = self.failures.pop().unwrap();
            w.end = now;
            self.failures.push(w);
            proof {
                assert(self.failures@ =~= old(self).failures@.update(
                    old(self).failures@.len() - 1,
                    FailureWindow { start: old(self).failures@.last().start, end: now },
                ));
            }
        }
    }
}

/// Tracker state reached from a fresh (healthy, windowless) start after
/// consuming the boolean results of successive ticks, where tick `k` was
/// observed at `times[k]`.
pub open spec fn spec_run(results: Seq<bool>, times: Seq<i64>) -> (bool, Seq<FailureWindow>)
    decreases results.len(),
{
    if results.len() == 0 {
        (false, Seq::empty())
    } else {
        let prev = spec_run(results.drop_last(), times.drop_last());
        spec_step(prev.0, prev.1, results.last(), times.last())
    }
}

/// Number of Healthy-to-Failing transitions a fresh tracker makes while
/// consuming `results`: positions whose result is a failure and whose
/// predecessor, if any, was a success.
pub open spec fn spec_drops(results: Seq<bool>) -> int
    decreases results.len(),
{
    if results.len() == 0 {
        0
    } else {
        spec_drops(results.drop_last()) + (
        if !results.last() && (results.len() == 1 || results[results.len() - 2]) {
            1int
        } else {
            0int
        })
    }
}

/// For any boolean sequence fed to one target's tracker at strictly
/// increasing, nonnegative tick times: the resulting window list is
/// well-formed (non-overlapping, strictly ordered by `start`), and it holds
/// exactly one window per Healthy-to-Failing transition of the sequence.  The
/// tracker ends failing exactly when the last result was a failure, and no
/// recorded timestamp exceeds the last tick's.
pub proof fn lemma_spec_run(results: Seq<bool>, times: Seq<i64>)
    requires
        results.len() == times.len(),
        forall|i: int| 0 <= i < times.len() ==> 0 <= #[trigger] times[i],
        forall|i: int, j: int|
            #![trigger times[i], times[j]]
            0 <= i < j < times.len() ==> times[i] < times[j],
    ensures
        windows_wf(spec_run(results, times).1),
        spec_run(results, times).1.len() == spec_drops(results),
        spec_run(results, times).0 == (results.len() > 0 && !results.last()),
        spec_run(results, times).0 ==> spec_run(results, times).1.len() > 0,
        spec_run(results, times).1.len() > 0 ==> results.len() > 0 && spec_run(
            results,
            times,
        ).1.last().end <= times.last(),
    decreases results.len(),
{
    if results.len() == 0 {
    } else {
        let rp = results.drop_last();
        let tp = times.drop_last();
        lemma_spec_run(rp, tp);
        let prev = spec_run(rp, tp);
        let now = times.last();
        assert(forall|i: int| 0 <= i < tp.len() ==> tp[i] == times[i]);
        if results.len() >= 2 {
            assert(tp.last() == times[results.len() - 2]);
            assert(times[results.len() - 2] < now);
        }
        if prev.0 {
            // Open window extended (and possibly closed): only its end moves.
            let ws2 = spec_run(results, times).1;
            assert(ws2 =~= prev.1.update(
                prev.1.len() - 1,
                FailureWindow { start: prev.1.last().start, end: now },
            ));
            assert(prev.1.last().end <= tp.last());
            assert(windows_wf(ws2));
        } else if !results.last() {
            // New window pushed at `now`, strictly after every earlier end.
            let ws2 = spec_run(results, times).1;
            assert(ws2 =~= prev.1.push(FailureWindow { start: now, end: now }));
            assert forall|i: int, j: int|
                #![trigger ws2[i], ws2[j]]
                0 <= i < j < ws2.len() implies ws2[i].end < ws2[j].start by {
                if j < ws2.len() - 1 {
                    assert(ws2[i] == prev.1[i] && ws2[j] == prev.1[j]);
                } else {
                    if i < prev.1.len() - 1 {
                        assert(prev.1[i].end < prev.1.last().start);
                    }
                    assert(prev.1.last().end <= tp.last());
                }
            }
            assert(windows_wf(ws2));
        }
    }
}

/// An all-healthy sequence makes no Healthy-to-Failing transition at all.
pub proof fn lemma_all_healthy_no_drops(results: Seq<bool>)
    requires
        forall|i: int| 0 <= i < results.len() ==> #[trigger] results[i],
    ensures
        spec_drops(results) == 0,
    decreases results.len(),
{
    if results.len() > 0 {
        lemma_all_healthy_no_drops(results.drop_last());
    }
}

/// An all-healthy sequence leaves the tracker with an empty window list.
pub proof fn lemma_all_healthy_no_windows(results: Seq<bool>, times: Seq<i64>)
    requires
        results.len() == times.len(),
        forall|i: int| 0 <= i < times.len() ==> 0 <= #[trigger] times[i],
        forall|i: int, j: int|
            #![trigger times[i], times[j]]
            0 <= i < j < times.len() ==> times[i] < times[j],
        forall|i: int| 0 <= i < results.len() ==> #[trigger] results[i],
    ensures
        spec_run(results, times).1.len() == 0,
{
    lemma_spec_run(results, times);
    lemma_all_healthy_no_drops(results);
}

} // verus!
