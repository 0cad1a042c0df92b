use vstd::prelude::*;
use vstd::seq_lib::lemma_update_is_remove_insert;
use crate::target::CheckKind;
use crate::tracker::{spec_step, FailureWindow, TargetState};

verus! {

/// True exactly when every result in the batch is a success.  This is the
/// gate on the mandatory initial health check: monitoring may begin only if
/// it returns true, so a failing target keeps every tracker windowless.
pub fn all_healthy(results: &Vec<bool>) -> (r: bool)
    ensures
        r == (forall|i: int| 0 <= i < results@.len() ==> #[trigger] results@[i]),
{
    let mut i: usize = 0;
    while i < results.len()
        invariant
            i <= results@.len(),
            forall|j: int| 0 <= j < i ==> #[trigger] results@[j],
        decreases results@.len() - i,
    {
        if !results[i] {
            return false;
        }
        i += 1;
    }
    true
}

/// What one tick does to one target's tracker: `s1` is `s0` advanced by
/// `spec_step` under its own boolean result alone, stays well-formed, keeps
/// its target, and records no timestamp beyond `now`.
pub open spec fn stepped(s0: TargetState, s1: TargetState, ok: bool, now: i64) -> bool {
    &&& s1.wf()
    &&& s1.target == s0.target
    &&& s1.is_failing == !ok
    &&& (s1.is_failing, s1.failures@) == spec_step(s0.is_failing, s0.failures@, ok, now)
    &&& s1.latest_end() <= now
}

/// What shutdown does to one target's tracker: a still-open last window has
/// its `end` forced to the shutdown timestamp; a healthy tracker's windows
/// are untouched.
pub open spec fn closed_at(s0: TargetState, s1: TargetState, now: i64) -> bool {
    &&& s1.wf()
    &&& s1.target == s0.target
    &&& s1.is_failing == s0.is_failing
    &&& s1.latest_end() <= if now as int >= s0.latest_end() {
        now as int
    } else {
        s0.latest_end()
    }
    &&& s0.is_failing ==> s1.failures@ == s0.failures@.update(
        s0.failures@.len() - 1,
        FailureWindow { start: s0.failures@.last().start, end: now },
    )
    &&& !s0.is_failing ==> s1.failures@ == s0.failures@
}

/// Apply one tick's results to every target's tracker, index-aligned with
/// the target list.  Each tracker transitions under its own result alone:
/// one target's update never touches another's state or windows.
pub fn update_all(states: &mut Vec<TargetState>, results: &Vec<bool>, now: i64)
    requires
        old(states)@.len() == results@.len(),
        now >= 0,
        forall|i: int| 0 <= i < old(states)@.len() ==> (#[trigger] old(states)@[i]).wf(),
        forall|i: int|
            0 <= i < old(states)@.len() ==> now > (#[trigger] old(states)@[i]).latest_end(),
    ensures
        final(states)@.len() == old(states)@.len(),
        forall|i: int|
            0 <= i < old(states)@.len() ==> stepped(
                old(states)@[i],
                #[trigger] final(states)@[i],
                results@[i],
                now,
            ),
{
    let mut i: usize = 0;
    while i < states.len()
        invariant
            states@.len() == old(states)@.len(),
            results@.len() == old(states)@.len(),
            i <= states@.len(),
            now >= 0,
            forall|j: int| 0 <= j < old(states)@.len() ==> (#[trigger] old(states)@[j]).wf(),
            forall|j: int|
                0 <= j < old(states)@.len() ==> now > (#[trigger] old(states)@[j]).latest_end(),
            forall|j: int| i <= j < states@.len() ==> states@[j] == old(states)@[j],
            forall|j: int|
                0 <= j < i ==> stepped(old(states)@[j], #[trigger] states@[j], results@[j], now),
        decreases states@.len() - i,
    {
        let ghost before = states@;
        let mut st = states.remove(i);
        st.update(results[i], now);
        states.insert(i, st);
        proof {
            lemma_update_is_remove_insert(before, i as int, st);
            assert(states@ =~= before.update(i as int, st));
        }
        i += 1;
    }
}

/// After cancellation, close every still-open window at the shutdown
/// timestamp, target by target.
pub fn close_all(states: &mut Vec<TargetState>, now: i64)
    requires
        forall|i: int| 0 <= i < old(states)@.len() ==> (#[trigger] old(states)@[i]).wf(),
        forall|i: int|
            0 <= i < old(states)@.len() ==> now >= (#[trigger] old(states)@[i]).latest_end(),
    ensures
        final(states)@.len() == old(states)@.len(),
        forall|i: int|
            0 <= i < old(states)@.len() ==> closed_at(
                old(states)@[i],
                #[trigger] final(states)@[i],
                now,
            ),
{
    let mut i: usize = 0;
    while i < states.len()
        invariant
            states@.len() == old(states)@.len(),
            i <= states@.len(),
            forall|j: int| 0 <= j < old(states)@.len() ==> (#[trigger] old(states)@[j]).wf(),
            forall|j: int|
                0 <= j < old(states)@.len() ==> now >= (#[trigger] old(states)@[j]).latest_end(),
            forall|j: int| i <= j < states@.len() ==> states@[j] == old(states)@[j],
            forall|j: int|
                0 <= j < i ==> closed_at(old(states)@[j], #[trigger] states@[j], now),
        decreases states@.len() - i,
    {
        let ghost before = states@;
        let mut st = states.remove(i);
        st.close_at(now);
        states.insert(i, st);
        proof {
            lemma_update_is_remove_insert(before, i as int, st);
            assert(states@ =~= before.update(i as int, st));
        }
        i += 1;
    }
}

/// One line of the structured per-tick status snapshot: the target's name,
/// its check kind, and this tick's boolean result.
pub struct StatusEntry {
    pub name: String,
    pub kind: CheckKind,
    pub ok: bool,
}

/// Build the structured status snapshot for one tick, index-aligned with the
/// target list; rendering it is a presentation concern outside the core.
pub fn status_snapshot(states: &Vec<TargetState>, results: &Vec<bool>) -> (snap: Vec<StatusEntry>)
    requires
        states@.len() == results@.len(),
    ensures
        snap@.len() == states@.len(),
        forall|i: int|
            0 <= i < snap@.len() ==> (#[trigger] snap@[i]).name@ == states@[i].target.name@,
        forall|i: int|
            0 <= i < snap@.len() ==> (#[trigger] snap@[i]).kind == states@[i].target.spec_kind(),
        forall|i: int| 0 <= i < snap@.len() ==> (#[trigger] snap@[i]).ok == results@[i],
{
    let mut snap: Vec<StatusEntry> = Vec::new();
    let mut i: usize = 0;
    while i < states.len()
        invariant
            states@.len() == results@.len(),
            i <= states@.len(),
            snap@.len() == i,
            forall|j: int| 0 <= j < i ==> (#[trigger] snap@[j]).name@ == states@[j].target.name@,
            forall|j: int|
                0 <= j < i ==> (#[trigger] snap@[j]).kind == states@[j].target.spec_kind(),
            forall|j: int| 0 <= j < i ==> (#[trigger] snap@[j]).ok == results@[j],
        decreases states@.len() - i,
    {
        let s = &states[i];
        snap.push(
            StatusEntry { name: s.target.name.clone(), kind: s.target.kind(), ok: results[i] },
        );
        i += 1;
    }
    snap
}

} // verus!
