use std::cell::RefCell;

use testify::{
    CaseOutcome, RunEvent, RunVerdict, Test, TestStatus, TestifyConfig, classify, run,
};

fn t(name: &str, case: Option<&str>, tags: &[&str], id: usize) -> Test {
    Test {
        name: name.to_string(),
        case: case.map(|c| c.to_string()),
        tags: tags.iter().map(|s| s.to_string()).collect(),
        should_panic: false,
        should_fail: false,
        id,
    }
}

fn config(name_filter: Option<&str>, fail_fast: bool) -> TestifyConfig {
    TestifyConfig {
        name_filter: name_filter.map(|s| s.to_string()),
        tags: Vec::new(),
        exclude_tags: Vec::new(),
        fail_fast,
    }
}

fn no_hook() -> Option<fn() -> bool> {
    None
}

#[test]
fn status_table_panicked_unexpected() {
    assert_eq!(classify(CaseOutcome::Panicked, false, false), TestStatus::Panicked);
}

#[test]
fn status_table_panicked_expected() {
    assert_eq!(classify(CaseOutcome::Panicked, true, false), TestStatus::Passed);
}

#[test]
fn status_table_success_plain() {
    assert_eq!(
        classify(CaseOutcome::Completed { success: true }, false, false),
        TestStatus::Passed
    );
}

#[test]
fn status_table_success_should_fail() {
    assert_eq!(
        classify(CaseOutcome::Completed { success: true }, false, true),
        TestStatus::NotFailed
    );
}

#[test]
fn status_table_failure_plain() {
    assert_eq!(
        classify(CaseOutcome::Completed { success: false }, false, false),
        TestStatus::Failed
    );
}

#[test]
fn status_table_failure_should_fail() {
    assert_eq!(
        classify(CaseOutcome::Completed { success: false }, false, true),
        TestStatus::Passed
    );
}

#[test]
fn status_table_returned_should_panic() {
    assert_eq!(
        classify(CaseOutcome::Completed { success: true }, true, false),
        TestStatus::NotPanicked
    );
    assert_eq!(
        classify(CaseOutcome::Completed { success: false }, true, false),
        TestStatus::NotPanicked
    );
}

fn three_cases() -> Vec<Test> {
    vec![
        t("plan", Some("a"), &[], 0),
        t("plan", Some("b"), &[], 1),
        t("plan", Some("c"), &[], 2),
    ]
}

#[test]
fn fail_fast_stops_after_first_failure() {
    let executed = RefCell::new(Vec::<usize>::new());
    let isolate = |id: usize| {
        executed.borrow_mut().push(id);
        CaseOutcome::Completed { success: id != 1 }
    };
    let report = |_e: RunEvent| {};
    let cfg = config(None, true);
    let r = run(three_cases(), &cfg, no_hook(), no_hook(), isolate, report);
    assert_eq!(executed.borrow().as_slice(), &[0, 1]);
    assert_eq!(r.results.len(), 2);
    assert!(r.aborted);
    assert_eq!(r.successes, 1);
    assert_eq!(r.failures, 1);
    assert_eq!(r.results[1].status, TestStatus::Failed);
}

#[test]
fn without_fail_fast_all_cases_execute() {
    let executed = RefCell::new(Vec::<usize>::new());
    let isolate = |id: usize| {
        executed.borrow_mut().push(id);
        CaseOutcome::Completed { success: id != 1 }
    };
    let report = |_e: RunEvent| {};
    let cfg = config(None, false);
    let r = run(three_cases(), &cfg, no_hook(), no_hook(), isolate, report);
    assert_eq!(executed.borrow().as_slice(), &[0, 1, 2]);
    assert_eq!(r.results.len(), 3);
    assert!(!r.aborted);
    assert_eq!(r.successes, 2);
    assert_eq!(r.failures, 1);
}

#[test]
fn aggregate_counts_match_executed_cases() {
    for fail_fast in [false, true] {
        let isolate = |id: usize| CaseOutcome::Completed { success: id != 1 };
        let report = |_e: RunEvent| {};
        let cfg = config(None, fail_fast);
        let r = run(three_cases(), &cfg, no_hook(), no_hook(), isolate, report);
        assert_eq!(r.successes + r.failures, r.results.len());
    }
}

#[test]
fn zero_matching_tests_is_a_clean_run() {
    let isolate = |_id: usize| panic!("no test may execute");
    let report = |_e: RunEvent| {};
    let cfg = config(Some("matches_nothing_*"), false);
    let r = run(three_cases(), &cfg, no_hook(), no_hook(), isolate, report);
    assert_eq!(r.verdict, RunVerdict::Completed);
    assert_eq!(r.to_run, 0);
    assert_eq!(r.skipped, 3);
    assert_eq!(r.results.len(), 0);
    assert_eq!(r.failures, 0);
    assert_eq!(r.successes, 0);
    assert!(!r.failed());
    assert_eq!(
        testify::summary_message(r.failures, r.successes),
        "0 failed and 0 succeeded"
    );
}

#[test]
fn failures_make_the_run_fail() {
    let isolate = |_id: usize| CaseOutcome::Completed { success: false };
    let report = |_e: RunEvent| {};
    let cfg = config(None, false);
    let r = run(three_cases(), &cfg, no_hook(), no_hook(), isolate, report);
    assert_eq!(r.failures, 3);
    assert!(r.failed());
}

#[test]
fn invalid_pattern_is_fatal_before_any_test() {
    let executed = RefCell::new(0usize);
    let isolate = |_id: usize| {
        *executed.borrow_mut() += 1;
        CaseOutcome::Completed { success: true }
    };
    let report = |_e: RunEvent| {};
    let cfg = config(Some("["), false);
    let r = run(three_cases(), &cfg, no_hook(), no_hook(), isolate, report);
    assert_eq!(r.verdict, RunVerdict::InvalidPattern);
    assert_eq!(*executed.borrow(), 0);
    assert_eq!(r.results.len(), 0);
    assert!(r.failed());
}

#[test]
fn hooks_frame_the_run() {
    let log = RefCell::new(Vec::<String>::new());
    let isolate = |id: usize| {
        log.borrow_mut().push(format!("test{id}"));
        CaseOutcome::Completed { success: true }
    };
    let report = |_e: RunEvent| {};
    let setup = || {
        log.borrow_mut().push("setup".to_string());
        true
    };
    let cleanup = || {
        log.borrow_mut().push("cleanup".to_string());
        true
    };
    let cfg = config(None, false);
    let r = run(three_cases(), &cfg, Some(setup), Some(cleanup), isolate, report);
    assert_eq!(r.verdict, RunVerdict::Completed);
    assert_eq!(
        log.borrow().as_slice(),
        &["setup", "test0", "test1", "test2", "cleanup"]
    );
}

#[test]
fn cleanup_still_runs_after_abort() {
    let log = RefCell::new(Vec::<String>::new());
    let isolate = |id: usize| {
        log.borrow_mut().push(format!("test{id}"));
        CaseOutcome::Completed { success: false }
    };
    let report = |_e: RunEvent| {};
    let setup = || {
        log.borrow_mut().push("setup".to_string());
        true
    };
    let cleanup = || {
        log.borrow_mut().push("cleanup".to_string());
        true
    };
    let cfg = config(None, true);
    let r = run(three_cases(), &cfg, Some(setup), Some(cleanup), isolate, report);
    assert!(r.aborted);
    assert_eq!(log.borrow().as_slice(), &["setup", "test0", "cleanup"]);
}

#[test]
fn cleanup_still_runs_with_zero_matching_tests() {
    let log = RefCell::new(Vec::<String>::new());
    let isolate = |_id: usize| panic!("no test may execute");
    let report = |_e: RunEvent| {};
    let setup = || {
        log.borrow_mut().push("setup".to_string());
        true
    };
    let cleanup = || {
        log.borrow_mut().push("cleanup".to_string());
        true
    };
    let cfg = config(Some("matches_nothing_*"), false);
    let r = run(three_cases(), &cfg, Some(setup), Some(cleanup), isolate, report);
    assert_eq!(r.verdict, RunVerdict::Completed);
    assert_eq!(log.borrow().as_slice(), &["setup", "cleanup"]);
}

#[test]
fn failed_setup_skips_tests_but_not_cleanup() {
    let log = RefCell::new(Vec::<String>::new());
    let isolate = |_id: usize| {
        log.borrow_mut().push("test".to_string());
        CaseOutcome::Completed { success: true }
    };
    let report = |_e: RunEvent| {};
    let setup = || {
        log.borrow_mut().push("setup".to_string());
        false
    };
    let cleanup = || {
        log.borrow_mut().push("cleanup".to_string());
        true
    };
    let cfg = config(None, false);
    let r = run(three_cases(), &cfg, Some(setup), Some(cleanup), isolate, report);
    assert_eq!(r.verdict, RunVerdict::SetupFailed);
    assert_eq!(r.results.len(), 0);
    assert!(r.failed());
    assert_eq!(log.borrow().as_slice(), &["setup", "cleanup"]);
}

#[test]
fn event_transcript_orders_setup_cases_cleanup() {
    let isolate = |_id: usize| CaseOutcome::Completed { success: true };
    let report = |_e: RunEvent| {};
    let setup = || true;
    let cleanup = || true;
    let cfg = config(None, false);
    let r = run(three_cases(), &cfg, Some(setup), Some(cleanup), isolate, report);
    assert!(matches!(r.events[0], RunEvent::SetupStarted));
    assert_eq!(r.events[1], RunEvent::SetupFinished { ok: true });
    let case_indices: Vec<usize> = r
        .events
        .iter()
        .enumerate()
        .filter(|(_, e)| matches!(e, RunEvent::CaseFinished { .. }))
        .map(|(i, _)| i)
        .collect();
    assert_eq!(case_indices.len(), 3);
    let setup_count = r
        .events
        .iter()
        .filter(|e| matches!(e, RunEvent::SetupStarted))
        .count();
    assert_eq!(setup_count, 1);
    let cleanup_indices: Vec<usize> = r
        .events
        .iter()
        .enumerate()
        .filter(|(_, e)| matches!(e, RunEvent::CleanupStarted))
        .map(|(i, _)| i)
        .collect();
    assert_eq!(cleanup_indices.len(), 1);
    let cleanup_index = cleanup_indices[0];
    assert!(case_indices.iter().all(|i| *i < cleanup_index));
    assert_eq!(
        r.events[cleanup_index + 1],
        RunEvent::CleanupFinished { ok: true }
    );
    assert_eq!(
        *r.events.last().unwrap(),
        RunEvent::Summary { failures: 0, successes: 3 }
    );
    // No filters were configured: nothing is skipped.
    assert_eq!(r.to_run, 3);
    assert_eq!(r.skipped, 0);
}

#[test]
fn report_sees_every_event_as_it_happens() {
    let seen = RefCell::new(Vec::<RunEvent>::new());
    let isolate = |_id: usize| CaseOutcome::Completed { success: true };
    let report = |e: RunEvent| {
        seen.borrow_mut().push(e);
    };
    let cfg = config(None, false);
    let r = run(three_cases(), &cfg, no_hook(), no_hook(), isolate, report);
    assert_eq!(seen.borrow().as_slice(), r.events.as_slice());
}

#[test]
fn abnormal_termination_maps_through_expectations() {
    let mut plain = t("may_panic", Some("plain"), &[], 0);
    plain.should_panic = false;
    let mut expected = t("may_panic", Some("expected"), &[], 1);
    expected.should_panic = true;
    let mut unmet = t("may_panic", Some("unmet"), &[], 2);
    unmet.should_panic = true;
    let isolate = |id: usize| {
        if id == 2 {
            CaseOutcome::Completed { success: true }
        } else {
            CaseOutcome::Panicked
        }
    };
    let report = |_e: RunEvent| {};
    let cfg = config(None, false);
    let r = run(vec![plain, expected, unmet], &cfg, no_hook(), no_hook(), isolate, report);
    // Cases execute in label order: expected, plain, unmet.
    assert_eq!(r.results[0].status, TestStatus::Passed);
    assert_eq!(r.results[1].status, TestStatus::Panicked);
    assert_eq!(r.results[2].status, TestStatus::NotPanicked);
    assert_eq!(r.successes, 1);
    assert_eq!(r.failures, 2);
}

#[test]
fn equal_keys_keep_registration_order() {
    // Two descriptors with identical tags, name and label: the stable sort
    // keeps them in registration order.
    let first = t("twin", None, &["x"], 7);
    let second = t("twin", None, &["x"], 8);
    let isolate = |_id: usize| CaseOutcome::Completed { success: true };
    let report = |_e: RunEvent| {};
    let cfg = config(None, false);
    let r = run(vec![first, second], &cfg, no_hook(), no_hook(), isolate, report);
    assert_eq!(r.results.len(), 2);
    assert_eq!(r.results[0].test.id, 7);
    assert_eq!(r.results[1].test.id, 8);
}

#[test]
fn execute_times_and_classifies_one_case() {
    let descriptor = t("single", None, &[], 3);
    let isolate = |id: usize| CaseOutcome::Completed { success: id == 3 };
    let (status, _nanos) = testify::execute(&descriptor, &isolate);
    assert_eq!(status, TestStatus::Passed);
    let isolate_failing = |_id: usize| CaseOutcome::Completed { success: false };
    let (status, _nanos) = testify::execute(&descriptor, &isolate_failing);
    assert_eq!(status, TestStatus::Failed);
}

#[test]
fn expected_failure_passes_and_unexpected_success_fails() {
    let mut failing = t("must_fail", None, &[], 0);
    failing.should_fail = true;
    let mut succeeding = t("must_fail_too", None, &[], 1);
    succeeding.should_fail = true;
    let isolate = |id: usize| CaseOutcome::Completed { success: id == 1 };
    let report = |_e: RunEvent| {};
    let cfg = config(None, false);
    let r = run(vec![failing, succeeding], &cfg, no_hook(), no_hook(), isolate, report);
    assert_eq!(r.results[0].status, TestStatus::Passed);
    assert_eq!(r.results[1].status, TestStatus::NotFailed);
    assert_eq!(r.successes, 1);
    assert_eq!(r.failures, 1);
}
