use testf::scan::{failed_tests_s, scan_transcript, State};

fn scan_str(transcript: &str) -> State {
    let mut state = State::default();
    for line in transcript.lines() {
        failed_tests_s(line, &mut state);
    }
    state
}

#[test]
fn works() {
    let output = r#"
running 3 tests
test test::fail ... FAILED
test test::inner_test::fail ... FAILED
test test::pass ... ok

failures:

---- test::fail stdout ----
thread 'test::fail' panicked at 'fail', src/main.rs:18:9
note: run with `RUST_BACKTRACE=1` environment variable to display a backtrace

---- test::inner_test::fail stdout ----
thread 'test::inner_test::fail' panicked at 'fail', src/main.rs:10:13


failures:
    test::fail
    test::inner_test::fail

test result: FAILED. 1 passed; 2 failed; 0 ignored; 0 measured; 0 filtered out; finished in 0.00s
        "#;
    let mut f = State::default();
    for l in output.lines() {
        failed_tests_s(l, &mut f);
    }

    assert_eq!(f.names, &["test::fail", "test::inner_test::fail"]);
}

#[test]
fn single_marker_collects_nothing() {
    let state = scan_str("failures:\n    test::fail\n    other::name\n");
    assert!(state.names.is_empty());
    assert_eq!(state.f_count, 1);
}

#[test]
fn no_marker_collects_nothing() {
    let state = scan_str("running 2 tests\ntest a ... ok\ntest b ... ok\n");
    assert!(state.names.is_empty());
    assert_eq!(state.f_count, 0);
}

#[test]
fn captures_trimmed_after_second_marker() {
    let transcript = "failures:\nnoise\nfailures:\n    plain\n        deeper::indent\nnot indented\n   three spaces\n";
    let state = scan_str(transcript);
    assert_eq!(state.names, &["plain", "deeper::indent"]);
}

#[test]
fn trailing_whitespace_is_trimmed_inner_spaces_kept() {
    let state = scan_str("failures:\nfailures:\n      a b  \n");
    assert_eq!(state.names, &["a b"]);
}

#[test]
fn third_marker_stops_collection() {
    let transcript = "failures:\nfailures:\n    kept::name\nfailures:\n    dropped::name\n";
    let state = scan_str(transcript);
    assert_eq!(state.names, &["kept::name"]);
    assert_eq!(state.f_count, 3);
}

#[test]
fn marker_must_match_exactly() {
    // Indented or decorated variants of the marker line do not count.
    let transcript = " failures:\nfailures: \nFailures:\nfailures:\nfailures:\n    caught\n";
    let state = scan_str(transcript);
    assert_eq!(state.names, &["caught"]);
    assert_eq!(state.f_count, 2);
}

#[test]
fn scanning_twice_from_fresh_states_agrees() {
    let transcript = "failures:\nfailures:\n    one\n    two\n\n    one\n";
    let first = scan_str(transcript);
    let second = scan_str(transcript);
    assert_eq!(first.names, second.names);
    assert_eq!(first.f_count, second.f_count);
    // Duplicates are preserved verbatim.
    assert_eq!(first.names, &["one", "two", "one"]);
}

#[test]
fn scan_transcript_matches_line_by_line_feed() {
    let lines: Vec<String> = vec![
        "failures:".to_string(),
        "failures:".to_string(),
        "    alpha".to_string(),
        "    ".to_string(),
        "    beta".to_string(),
    ];
    let mut whole = State::default();
    scan_transcript(&lines, &mut whole);
    let mut stepped = State::default();
    for l in &lines {
        failed_tests_s(l, &mut stepped);
    }
    assert_eq!(whole.names, stepped.names);
    assert_eq!(whole.names, &["alpha", "beta"]);
}

#[test]
fn scenario_failing_run() {
    let lines = [
        "running 3 tests",
        "test test::fail ... FAILED",
        "test test::pass ... ok",
        "",
        "failures:",
        "",
        "---- test::fail stdout ----",
        "panicked",
        "",
        "failures:",
        "    test::fail",
        "",
        "test result: FAILED.",
    ];
    let mut state = State::default();
    for l in lines {
        failed_tests_s(l, &mut state);
    }
    assert_eq!(state.names, &["test::fail"]);
}

#[test]
fn scenario_blank_region_after_second_marker() {
    let transcript = "failures:\nfailures:\n\n    \n\n";
    let state = scan_str(transcript);
    assert!(state.names.is_empty());
    assert_eq!(state.f_count, 2);
}
