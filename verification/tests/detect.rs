use target_sweep::detect::{classify, Classification};
use target_sweep::engine::cutoff_from_now;

#[test]
fn missing_manifest_is_never_eligible() {
    assert_eq!(
        classify(false, true, Some(0), 1_000_000),
        Classification::NotAProject
    );
    assert_eq!(
        classify(false, true, None, 1_000_000),
        Classification::NotAProject
    );
    assert_eq!(
        classify(false, false, Some(2_000_000), 1_000_000),
        Classification::NotAProject
    );
}

#[test]
fn missing_build_dir_is_not_a_project() {
    assert_eq!(
        classify(true, false, Some(0), 1_000_000),
        Classification::NotAProject
    );
}

#[test]
fn modified_after_cutoff_is_too_recent() {
    assert_eq!(
        classify(true, true, Some(1_000_001), 1_000_000),
        Classification::TooRecent
    );
}

#[test]
fn modified_exactly_at_cutoff_is_eligible() {
    assert_eq!(
        classify(true, true, Some(1_000_000), 1_000_000),
        Classification::Eligible
    );
}

#[test]
fn modified_before_cutoff_is_eligible() {
    assert_eq!(
        classify(true, true, Some(999_999), 1_000_000),
        Classification::Eligible
    );
}

#[test]
fn unreadable_time_fails_open() {
    assert_eq!(classify(true, true, None, 0), Classification::Eligible);
}

#[test]
fn two_day_window_scenario() {
    // "2d" against a project last modified three days ago, and one
    // modified an hour ago.
    let now: u64 = 1_000_000_000;
    let cutoff = cutoff_from_now(now, 172_800);
    assert_eq!(cutoff, 999_827_200);
    let three_days_ago = now - 259_200;
    let one_hour_ago = now - 3_600;
    assert_eq!(
        classify(true, true, Some(three_days_ago), cutoff),
        Classification::Eligible
    );
    assert_eq!(
        classify(true, true, Some(one_hour_ago), cutoff),
        Classification::TooRecent
    );
}

#[test]
fn cutoff_saturates_at_the_epoch() {
    assert_eq!(cutoff_from_now(100, 500), 100);
    assert_eq!(cutoff_from_now(500, 100), 400);
}
