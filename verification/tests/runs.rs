use simaai_sentinel::clock::utc_stamp;
use simaai_sentinel::runs::{
    active_path, comparison_duration_milliseconds, completed_path, csv_field, csv_keys, delete_target,
    duration_ms, find_completed, find_run, journal_path, load_target, lock_path, record,
    retention_limit, retention_victims, run_id, sample_elapsed_microseconds,
    sample_elapsed_milliseconds, sample_interval_ms, sample_limit, select_many, slug,
    stable_order, start_check, summary_duration_ms, validate_name, Found, RunEntry, RunError,
};

fn entry(id: &str, name: &str) -> RunEntry {
    RunEntry {
        id: id.to_string(),
        name: name.to_string(),
    }
}

const MS: i128 = 1_000_000;

#[test]
fn names_are_validated() {
    assert!(validate_name("  baseline ").is_ok());
    assert!(matches!(validate_name("   "), Err(RunError::EmptyName)));
    assert!(matches!(validate_name(&"x".repeat(81)), Err(RunError::NameTooLong)));
    assert!(validate_name(&"x".repeat(80)).is_ok());
    assert!(matches!(validate_name(&"é".repeat(41)), Err(RunError::NameTooLong)));
    assert!(matches!(validate_name("a\u{7}b"), Err(RunError::NameControl)));
    assert!(matches!(validate_name("a\u{85}b"), Err(RunError::NameControl)));
    assert_eq!(
        RunError::EmptyName.message(),
        "checkpoint name must not be empty"
    );
}

#[test]
fn slugs_are_lowercase_ascii_with_single_dashes() {
    assert_eq!(slug("My Run #1"), "my-run-1");
    assert_eq!(slug("  --Ab__c--  "), "ab-c");
    assert_eq!(slug("éé"), "run");
    assert_eq!(slug("İx"), "i-x");
    assert_eq!(slug("\u{212A}elvin"), "kelvin");
    assert_eq!(run_id("20260731T010203.000Z", "Base Line"), "20260731T010203.000Z-base-line");
}

#[test]
fn csv_fields_are_quoted_when_needed() {
    assert_eq!(csv_field("plain"), "plain");
    assert_eq!(csv_field("a,b"), "\"a,b\"");
    assert_eq!(csv_field("say \"hi\""), "\"say \"\"hi\"\"\"");
    assert_eq!(csv_field("two\nlines"), "\"two\nlines\"");
    assert_eq!(csv_field(""), "");
}

#[test]
fn store_paths() {
    assert_eq!(active_path("/runs"), "/runs/active.json");
    assert_eq!(journal_path("/runs"), "/runs/active.samples");
    assert_eq!(lock_path("/runs"), "/runs/.lock");
    assert_eq!(completed_path("/runs", "abc"), "/runs/abc.json");
}

#[test]
fn selectors_match_ids_or_names() {
    let completed = vec![entry("1-a", "a"), entry("2-b", "b"), entry("3-b", "b")];
    assert_eq!(find_completed(&completed, "a").unwrap(), Some(0));
    assert_eq!(find_completed(&completed, "3-b").unwrap(), Some(2));
    assert_eq!(find_completed(&completed, "zzz").unwrap(), None);
    let ambiguous = find_completed(&completed, "b").unwrap_err();
    assert_eq!(ambiguous.message(), "run name 'b' is ambiguous; use a run ID");
    let active = entry("9-live", "live");
    assert_eq!(find_run(Some(&active), &completed, "live").unwrap(), Some(Found::Active));
    assert_eq!(
        find_run(Some(&active), &completed, "a").unwrap(),
        Some(Found::Completed(0))
    );
    assert_eq!(
        load_target(None, &completed, "nope").unwrap_err().message(),
        "unknown run 'nope'"
    );
}

#[test]
fn load_many_keeps_first_occurrence_of_each_run() {
    let completed = vec![entry("1-a", "a"), entry("2-b", "b")];
    let active = entry("9-live", "live");
    let selectors: Vec<String> = ["b", "a", "2-b", "live", "9-live"]
        .iter()
        .map(|s| s.to_string())
        .collect();
    assert_eq!(
        select_many(Some(&active), &completed, &selectors).unwrap(),
        vec![Found::Completed(1), Found::Completed(0), Found::Active]
    );
    let missing: Vec<String> = vec!["a".into(), "x".into(), "y".into()];
    assert_eq!(
        select_many(None, &completed, &missing).unwrap_err().message(),
        "unknown run 'x'"
    );
}

#[test]
fn duplicate_and_active_operations_are_refused() {
    let completed = vec![entry("1-same", "same")];
    assert_eq!(
        start_check("other", Some("same"), &[]).unwrap_err().message(),
        "checkpoint 'same' is already recording; stop it before starting another"
    );
    assert_eq!(
        start_check("same", None, &completed).unwrap_err().message(),
        "a completed run named 'same' already exists"
    );
    assert!(start_check("fresh", None, &completed).is_ok());
    assert!(matches!(start_check(" ", None, &completed), Err(RunError::EmptyName)));
    let active = entry("2-live", "live");
    assert_eq!(
        delete_target(Some(&active), &completed, "2-live").unwrap_err().message(),
        "cannot delete active run 'live'; stop it first"
    );
    assert_eq!(delete_target(Some(&active), &completed, "same").unwrap(), 0);
    assert_eq!(
        delete_target(None, &completed, "gone").unwrap_err().message(),
        "unknown completed run 'gone'"
    );
}

#[test]
fn stable_order_sorts_by_key_and_keeps_ties_in_order() {
    let keys = [30, 10, 20, 10];
    assert_eq!(stable_order(&keys, false), vec![1, 3, 2, 0]);
    assert_eq!(stable_order(&keys, true), vec![0, 2, 1, 3]);
    assert!(stable_order(&[], false).is_empty());
}

#[test]
fn retention_removes_the_oldest_runs_beyond_the_limit() {
    let started = [50, 10, 40, 20, 30];
    assert_eq!(retention_victims(&started, 2), vec![1, 3, 4]);
    assert!(retention_victims(&started, 5).is_empty());
    assert!(retention_victims(&started, 9).is_empty());
    assert_eq!(retention_victims(&[7, 7, 7], 1), vec![0, 1]);
}

#[test]
fn limits_come_from_the_environment_text() {
    assert_eq!(retention_limit(None), 50);
    assert_eq!(retention_limit(Some("7")), 7);
    assert_eq!(retention_limit(Some("0")), 1);
    assert_eq!(retention_limit(Some("many")), 50);
    assert_eq!(sample_limit(None), 21_600);
    assert_eq!(sample_limit(Some("1")), 2);
    assert_eq!(sample_limit(Some("100")), 100);
}

#[test]
fn comparison_elapsed_time_starts_at_first_captured_sample() {
    let started = 0;
    let first = started + 1_750 * MS;
    let second = first + 2_000 * MS;
    assert_eq!(sample_elapsed_milliseconds(Some(first), first), 0);
    assert_eq!(sample_elapsed_milliseconds(Some(first), second), 2_000);
    assert_eq!(comparison_duration_milliseconds(Some(first), Some(second)), 2_000);
    assert_eq!(comparison_duration_milliseconds(None, None), 0);
    assert_eq!(sample_elapsed_microseconds(Some(second), first), 0);
    assert_eq!(sample_elapsed_microseconds(None, first), 0);
}

#[test]
fn durations_are_whole_non_negative_milliseconds() {
    assert_eq!(duration_ms(0, 2_500_000), 2);
    assert_eq!(duration_ms(5 * MS, 0), 0);
    assert_eq!(summary_duration_ms(0, Some(3 * MS), Some(9 * MS)), 3);
    assert_eq!(summary_duration_ms(0, None, Some(9 * MS)), 9);
    assert_eq!(summary_duration_ms(0, None, None), 0);
    assert_eq!(sample_interval_ms(&[0, 1_000 * MS, 3_000 * MS]), Some(2_000));
    assert_eq!(sample_interval_ms(&[5 * MS, 1 * MS]), Some(0));
    assert_eq!(sample_interval_ms(&[5]), None);
}

#[test]
fn recording_appends_only_newer_samples_until_the_limit() {
    assert_eq!(record(None, 10, 0, 5, "r").unwrap(), true);
    assert_eq!(record(Some(10), 10, 1, 5, "r").unwrap(), false);
    assert_eq!(record(Some(10), 11, 1, 5, "r").unwrap(), true);
    assert_eq!(
        record(Some(10), 11, 5, 5, "r").unwrap_err().message(),
        "active checkpoint 'r' reached the 5-sample safety limit; stop it to save the captured data"
    );
}

#[test]
fn csv_rows_cover_defined_and_present_keys_in_order() {
    let defined: Vec<String> = vec!["power".into(), "cpu".into()];
    let present: Vec<String> = vec!["cpu".into(), "Zeta".into(), "alpha".into()];
    assert_eq!(csv_keys(&defined, &present), vec!["Zeta", "alpha", "cpu", "power"]);
    assert!(csv_keys(&[], &[]).is_empty());
    assert_eq!(csv_keys(&["é".into(), "z".into()], &[]), vec!["z", "é"]);
}

#[test]
fn compact_utc_stamps_match_chrono() {
    assert_eq!(utc_stamp(1431648000, 0, false).as_deref(), Some("20150515T000000Z"));
    assert_eq!(
        utc_stamp(1431648000, 123_456_789, true).as_deref(),
        Some("20150515T000000.123Z")
    );
    for (secs, nanos) in [
        (0i64, 0u32),
        (-1, 999_999_999),
        (1_700_000_000, 5_000_000),
        (-62_135_596_800 - 86_400, 0),
        (253_402_300_800, 0),
        (-100_000_000_000, 1),
    ] {
        let time = chrono::DateTime::from_timestamp(secs, nanos).unwrap();
        assert_eq!(
            utc_stamp(secs, nanos, true).unwrap(),
            time.format("%Y%m%dT%H%M%S%.3fZ").to_string()
        );
        assert_eq!(
            utc_stamp(secs, nanos, false).unwrap(),
            time.format("%Y%m%dT%H%M%SZ").to_string()
        );
    }
    assert_eq!(utc_stamp(i64::MAX, 0, true), None);
}
