use downtime_benchmarker::target::{Check, CheckKind, Target};
use downtime_benchmarker::tracker::{FailureWindow, TargetState};
use downtime_benchmarker::monitor::{all_healthy, close_all, status_snapshot, update_all};

fn http_target(name: &str) -> Target {
    Target { name: name.to_string(), check: Check::Http { url: "http://localhost/".to_string() } }
}

fn run(results: &[bool], times: &[i64]) -> TargetState {
    let mut st = TargetState::new(http_target("t"));
    for (i, &ok) in results.iter().enumerate() {
        st.update(ok, times[i]);
    }
    st
}

#[test]
fn fresh_tracker_is_healthy_and_windowless() {
    let st = TargetState::new(http_target("a"));
    assert!(!st.is_failing);
    assert_eq!(st.failures.len(), 0);
}

#[test]
fn all_healthy_sequence_leaves_no_windows() {
    let st = run(&[true, true, true, true], &[1, 2, 3, 4]);
    assert!(!st.is_failing);
    assert_eq!(st.failures.len(), 0);
}

#[test]
fn single_failure_then_recovery_yields_one_window() {
    // [true, true, false, true] at t0..t3: one window {start: t2, end: t3}.
    let st = run(&[true, true, false, true], &[10, 11, 12, 13]);
    assert!(!st.is_failing);
    assert_eq!(st.failures.len(), 1);
    assert_eq!(st.failures[0], FailureWindow { start: 12, end: 13 });
    assert!(st.failures[0].duration_secs() >= 1);
}

#[test]
fn failing_ticks_three_to_five_duration_counts_recovery_lag() {
    // Healthy at 1..2, failing at 3..5, recovery observed at 6: the window
    // runs from the first failing tick to the recovering tick.
    let st = run(&[true, true, false, false, false, true], &[1, 2, 3, 4, 5, 6]);
    assert_eq!(st.failures.len(), 1);
    assert_eq!(st.failures[0], FailureWindow { start: 3, end: 6 });
    // duration == failing ticks (3) + closing tick (1) - 1
    assert_eq!(st.failures[0].duration_secs(), 3);
}

#[test]
fn window_count_equals_health_drops() {
    let st = run(
        &[false, true, false, false, true, true, false],
        &[1, 2, 3, 4, 5, 6, 7],
    );
    // Drops at ticks 1, 3 and 7.
    assert_eq!(st.failures.len(), 3);
    assert!(st.is_failing);
    assert_eq!(st.failures[0], FailureWindow { start: 1, end: 2 });
    assert_eq!(st.failures[1], FailureWindow { start: 3, end: 5 });
    assert_eq!(st.failures[2], FailureWindow { start: 7, end: 7 });
}

#[test]
fn windows_are_ordered_and_disjoint() {
    let st = run(
        &[false, true, false, true, false, true],
        &[5, 6, 9, 12, 20, 30],
    );
    assert_eq!(st.failures.len(), 3);
    for w in &st.failures {
        assert!(w.start <= w.end);
    }
    for i in 1..st.failures.len() {
        assert!(st.failures[i - 1].end < st.failures[i].start);
    }
}

#[test]
fn cancellation_mid_failure_stamps_shutdown_time() {
    let mut st = run(&[true, false, false], &[1, 2, 3]);
    assert!(st.is_failing);
    assert_eq!(st.failures[0], FailureWindow { start: 2, end: 3 });
    st.close_at(9);
    assert_eq!(st.failures.len(), 1);
    assert_eq!(st.failures[0], FailureWindow { start: 2, end: 9 });
    assert!(st.failures[0].end >= st.failures[0].start);
}

#[test]
fn cancellation_while_healthy_changes_nothing() {
    let mut st = run(&[true, false, true], &[1, 2, 3]);
    assert!(!st.is_failing);
    st.close_at(50);
    assert_eq!(st.failures.len(), 1);
    assert_eq!(st.failures[0], FailureWindow { start: 2, end: 3 });
}

#[test]
fn duration_is_at_least_one_unit() {
    let w = FailureWindow { start: 7, end: 7 };
    assert_eq!(w.duration_secs(), 1);
    let w2 = FailureWindow { start: 7, end: 20 };
    assert_eq!(w2.duration_secs(), 13);
}

#[test]
fn update_all_is_per_target_independent() {
    let mut states = vec![
        TargetState::new(http_target("a")),
        TargetState::new(http_target("b")),
    ];
    update_all(&mut states, &vec![true, false], 1);
    assert_eq!(states[0].failures.len(), 0);
    assert!(!states[0].is_failing);
    assert_eq!(states[1].failures.len(), 1);
    assert!(states[1].is_failing);
    update_all(&mut states, &vec![false, true], 2);
    assert_eq!(states[0].failures.len(), 1);
    assert_eq!(states[0].failures[0], FailureWindow { start: 2, end: 2 });
    assert_eq!(states[1].failures[0], FailureWindow { start: 1, end: 2 });
    assert!(!states[1].is_failing);
}

#[test]
fn close_all_closes_only_open_windows() {
    let mut states = vec![
        TargetState::new(http_target("a")),
        TargetState::new(http_target("b")),
    ];
    update_all(&mut states, &vec![false, false], 1);
    update_all(&mut states, &vec![true, false], 2);
    close_all(&mut states, 8);
    assert_eq!(states[0].failures[0], FailureWindow { start: 1, end: 2 });
    assert_eq!(states[1].failures[0], FailureWindow { start: 1, end: 8 });
}

#[test]
fn all_healthy_gate() {
    assert!(all_healthy(&vec![]));
    assert!(all_healthy(&vec![true, true, true]));
    assert!(!all_healthy(&vec![true, false, true]));
    assert!(!all_healthy(&vec![false]));
}

#[test]
fn failed_initial_check_means_no_windows_ever() {
    // The loop must not start when the initial poll has a failure; the
    // states stay exactly as created.
    let states = vec![
        TargetState::new(http_target("a")),
        TargetState::new(http_target("b")),
    ];
    let initial = vec![true, false];
    if !all_healthy(&initial) {
        // monitoring never starts
    } else {
        panic!("gate should have failed");
    }
    assert!(states.iter().all(|s| s.failures.is_empty()));
}

#[test]
fn status_snapshot_lines_up_with_targets() {
    let tcp = Target { name: "db".to_string(), check: Check::Tcp { host: "::1".to_string(), port: 5432 } };
    let states = vec![TargetState::new(http_target("web")), TargetState::new(tcp)];
    let snap = status_snapshot(&states, &vec![true, false]);
    assert_eq!(snap.len(), 2);
    assert_eq!(snap[0].name, "web");
    assert_eq!(snap[0].kind, CheckKind::Http);
    assert!(snap[0].ok);
    assert_eq!(snap[1].name, "db");
    assert_eq!(snap[1].kind, CheckKind::Tcp);
    assert!(!snap[1].ok);
}
