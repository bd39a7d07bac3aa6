use assay::dispatch::{failure_payload, qualified_name, run_mode, smuggled_message, worker_args, Dispatcher, Mode, Step};
use assay::output::failure_excerpt;

const NAME: &str = "tests::flaky";

fn failing() -> String {
    "running 1 test\ntest tests::flaky ... FAILED\n\nfailures:\n\n---- tests::flaky stdout ----\nboom\r\nline2\n\nfailures:\n    tests::flaky\n".to_string()
}

fn passing() -> String {
    "running 1 test\ntest tests::flaky ... ok\n\ntest result: ok. 1 passed\n".to_string()
}

#[test]
fn retries_until_a_worker_passes() {
    let mut d = Dispatcher::new(NAME.to_string(), Some(3), None);
    let mut spawned = 0;
    assert!(matches!(d.start(), Step::Spawn));
    spawned += 1;
    assert!(matches!(d.on_output(&failing()), Step::Spawn));
    spawned += 1;
    assert!(matches!(d.on_output(&failing()), Step::Spawn));
    spawned += 1;
    assert!(matches!(d.on_output(&passing()), Step::Pass));
    assert_eq!(spawned, 3);
    assert_eq!(d.spawned, 3);
    assert!(d.last_failure.is_none());
}

#[test]
fn fails_with_the_last_excerpt_when_retries_run_out() {
    let mut d = Dispatcher::new(NAME.to_string(), Some(2), None);
    assert!(matches!(d.start(), Step::Spawn));
    assert!(matches!(d.on_output(&failing()), Step::Spawn));
    match d.on_output(&failing()) {
        Step::Fail(m) => assert_eq!(m, "boom\nline2\n"),
        _ => panic!("expected a failure"),
    }
    assert_eq!(d.spawned, 2);
}

#[test]
fn one_run_by_default() {
    let mut d = Dispatcher::new(NAME.to_string(), None, None);
    assert!(matches!(d.start(), Step::Spawn));
    assert!(matches!(d.on_output(&failing()), Step::Fail(_)));
    assert_eq!(d.spawned, 1);
}

#[test]
fn timeout_kills_and_names_the_duration() {
    let mut d = Dispatcher::new(NAME.to_string(), Some(3), Some(2000));
    assert!(matches!(d.start(), Step::Spawn));
    match d.on_timeout() {
        Step::KillThenFail(m) => assert_eq!(m, "test timed out after 2s"),
        _ => panic!("expected kill"),
    }
    let d = Dispatcher::new(NAME.to_string(), None, Some(1500));
    match d.on_timeout() {
        Step::KillThenFail(m) => assert_eq!(m, "test timed out after 1500ms"),
        _ => panic!("expected kill"),
    }
}

#[test]
fn excerpt_of_a_failure() {
    assert_eq!(failure_excerpt(&failing(), NAME), Some("boom\nline2\n".to_string()));
    assert_eq!(failure_excerpt(&passing(), NAME), None);
    let other = "test tests::other ... FAILED\n---- tests::other stdout ----\nx\n";
    assert_eq!(failure_excerpt(other, NAME), None);
    let expected_panic = "test tests::flaky - should panic ... ok\n";
    assert_eq!(failure_excerpt(expected_panic, NAME), Some(String::new()));
    let next_section = "tests::flaky ... FAILED\n---- tests::flaky stdout ----\na\nb\n---- tests::other stdout ----\nc\n";
    assert_eq!(failure_excerpt(next_section, NAME), Some("a\nb".to_string()));
}

#[test]
fn where_the_body_runs() {
    assert_eq!(run_mode(None, None), Mode::Dispatch);
    assert_eq!(run_mode(Some("process-per-test"), None), Mode::Direct);
    assert_eq!(run_mode(Some("process-per-run"), None), Mode::Dispatch);
    assert_eq!(run_mode(None, Some("1")), Mode::Direct);
    assert_eq!(run_mode(None, Some("0")), Mode::Dispatch);
}

#[test]
fn failure_travels_in_a_panic_message() {
    let p = failure_payload("boom\n");
    assert_eq!(p, "ASSAY_PANIC_INTERNAL_MESSAGE\nboom\n");
    assert_eq!(smuggled_message(&p), Some("boom".to_string()));
    assert_eq!(smuggled_message("explicit panic"), None);
}

#[test]
fn worker_runs_only_its_instance() {
    assert_eq!(worker_args("tests::a", false), vec!["tests::a", "--exact"]);
    assert_eq!(worker_args("tests::a", true), vec!["tests::a", "--exact", "--ignored"]);
}

#[test]
fn names_drop_the_crate() {
    assert_eq!(qualified_name("my_crate::tests::inner", "works"), "tests::inner::works");
    assert_eq!(qualified_name("my_crate", "works"), "works");
    assert_eq!(qualified_name("my_crate::", "works"), "::works");
    assert_eq!(qualified_name("a:b::c", "t"), "c::t");
}
