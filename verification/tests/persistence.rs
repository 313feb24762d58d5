use testf::cache::{join_names, split_names, MemCache};
use testf::cmdline::{build_args, cache_file_name};
use testf::hashing::hash;
use testf::locate::first_match;
use testf::scan::{failed_tests_s, State};

#[test]
fn hash_is_deterministic() {
    let path = "/work/project/Cargo.toml";
    assert_eq!(hash(path), hash(path));
    assert_ne!(hash("/work/a/Cargo.toml"), hash("/work/b/Cargo.toml"));
}

#[test]
fn hash_exact_values() {
    // 'a' = 97, 'b' = 98: 97 * 31 + 98 = 3105.
    assert_eq!(hash(""), 0);
    assert_eq!(hash("a"), 97);
    assert_eq!(hash("ab"), 3105);
}

#[test]
fn cache_file_name_exact_values() {
    assert_eq!(cache_file_name(0), "testf-0.txt");
    assert_eq!(cache_file_name(3105), "testf-3105.txt");
    assert_eq!(cache_file_name(u64::MAX), "testf-18446744073709551615.txt");
}

#[test]
fn cache_round_trip() {
    let names = vec!["test::fail".to_string(), "test::inner_test::fail".to_string()];
    let mut cache = MemCache::new();
    cache.save(&names);
    assert_eq!(cache.load(), names);
}

#[test]
fn save_then_clear_loads_empty() {
    let names = vec!["a".to_string(), "b".to_string()];
    let mut cache = MemCache::new();
    cache.save(&names);
    cache.clear();
    assert!(cache.load().is_empty());
}

#[test]
fn load_without_record_is_empty() {
    let cache = MemCache::new();
    assert!(cache.load().is_empty());
}

#[test]
fn split_keeps_empty_tokens() {
    assert_eq!(split_names("a  b"), vec!["a", "", "b"]);
    assert_eq!(split_names(""), vec![""]);
    assert_eq!(split_names(" "), vec!["", ""]);
}

#[test]
fn join_has_no_trailing_separator() {
    assert_eq!(join_names(&vec!["a".to_string(), "b".to_string()]), "a b");
    assert_eq!(join_names(&vec!["solo".to_string()]), "solo");
    assert_eq!(join_names(&Vec::new()), "");
}

#[test]
fn successful_run_clears_the_cache() {
    let mut cache = MemCache::new();
    cache.save(&vec!["old::failure".to_string()]);
    // A run whose transcript has no marker at all collects nothing.
    let mut state = State::default();
    for l in "running 2 tests\ntest a ... ok\ntest b ... ok\n".lines() {
        failed_tests_s(l, &mut state);
    }
    assert!(state.names.is_empty());
    cache.apply_run_outcome(true, &state.names);
    assert!(cache.load().is_empty());
}

#[test]
fn failing_run_overwrites_even_with_no_names() {
    let mut cache = MemCache::new();
    cache.save(&vec!["old::failure".to_string()]);
    cache.apply_run_outcome(false, &Vec::new());
    // The empty record splits into one empty token.
    assert_eq!(cache.load(), vec![""]);
}

#[test]
fn locator_picks_nearest_ancestor() {
    assert_eq!(first_match(&vec![false, true, true]), Some(1));
    assert_eq!(first_match(&vec![true]), Some(0));
    assert_eq!(first_match(&vec![false, false]), None);
    assert_eq!(first_match(&Vec::new()), None);
}

#[test]
fn scenario_rerun_arguments() {
    let mut cache = MemCache::new();
    cache.save(&vec!["a".to_string(), "b".to_string(), "c".to_string()]);
    let prior = cache.load();
    let args = build_args(&Vec::new(), &prior);
    assert_eq!(args, vec!["--", "a", "b", "c", "--exact"]);
}

#[test]
fn build_args_without_prior_failures_is_unchanged() {
    let caller = vec!["--release".to_string()];
    let args = build_args(&caller, &Vec::new());
    assert_eq!(args, caller);
}

#[test]
fn build_args_keeps_existing_separator() {
    let caller = vec!["--".to_string(), "filter".to_string()];
    let prior = vec!["x".to_string()];
    let args = build_args(&caller, &prior);
    assert_eq!(args, vec!["--", "filter", "x", "--exact"]);
}
