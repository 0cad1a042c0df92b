use downtime_benchmarker::monitor::{all_healthy, close_all, update_all};
use downtime_benchmarker::report::{build_report, report_total_fits, Report};
use downtime_benchmarker::target::{Check, Target};
use downtime_benchmarker::tracker::{FailureWindow, TargetState};

#[test]
fn monitoring_run_end_to_end() {
    let targets = vec![
        Target { name: "api".to_string(), check: Check::Http { url: "http://a/".to_string() } },
        Target { name: "db".to_string(), check: Check::Tcp { host: "::1".to_string(), port: 5432 } },
    ];

    // Initial health check passes, so monitoring starts.
    let initial = vec![true, true];
    assert!(all_healthy(&initial));

    let mut states: Vec<TargetState> = targets.into_iter().map(TargetState::new).collect();

    // db goes down at tick 101, api at 103; db recovers at 104; cancellation
    // arrives at 106 while api is still failing.
    let ticks: [(i64, [bool; 2]); 6] = [
        (100, [true, true]),
        (101, [true, false]),
        (102, [true, false]),
        (103, [false, false]),
        (104, [false, true]),
        (105, [false, true]),
    ];
    for (now, results) in ticks {
        update_all(&mut states, &results.to_vec(), now);
    }
    close_all(&mut states, 106);

    assert_eq!(states[0].failures, vec![FailureWindow { start: 103, end: 106 }]);
    assert_eq!(states[1].failures, vec![FailureWindow { start: 101, end: 104 }]);

    assert!(report_total_fits(&states));
    match build_report(states) {
        Report::NoDowntime => panic!("expected downtime"),
        Report::Downtime { started_at, entries, total_secs } => {
            // db failed first, so it leads the report, and the overall start
            // is the minimum first failure.
            assert_eq!(started_at, 101);
            assert_eq!(entries.len(), 2);
            assert_eq!(entries[0].target.name, "db");
            assert_eq!(entries[0].total_secs, 3);
            assert_eq!(entries[1].target.name, "api");
            assert_eq!(entries[1].total_secs, 3);
            assert_eq!(total_secs, 6);
        }
    }
}
