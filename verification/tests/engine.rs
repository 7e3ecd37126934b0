use target_sweep::detect::{classify, Classification};
use target_sweep::engine::{
    aggregate, candidate_step, evaluate_invocation, CleanupResult, EngineError,
};
use target_sweep::stats::{format_micro_kib, CleanupStats};

#[test]
fn ineligible_candidates_are_skipped_without_invocation() {
    assert_eq!(
        candidate_step(Classification::NotAProject, None),
        Ok(CleanupResult::Skipped)
    );
    assert_eq!(
        candidate_step(
            Classification::TooRecent,
            Some((true, b"Removed 1 files, 1.00KiB total".as_slice()))
        ),
        Ok(CleanupResult::Skipped)
    );
}

#[test]
fn unspawnable_invocation_is_a_failed_candidate() {
    assert_eq!(
        candidate_step(Classification::Eligible, None),
        Ok(CleanupResult::Failed)
    );
}

#[test]
fn eligible_candidate_is_judged_by_its_invocation() {
    assert_eq!(
        candidate_step(
            Classification::Eligible,
            Some((true, b"Removed 12 files, 3.50MiB total".as_slice()))
        ),
        Ok(CleanupResult::Cleaned {
            files: 12,
            size_micro_kib: 3_584_000_000,
        })
    );
    assert_eq!(
        candidate_step(Classification::Eligible, Some((false, b"".as_slice()))),
        Ok(CleanupResult::Failed)
    );
    assert_eq!(
        candidate_step(Classification::Eligible, Some((true, b"junk".as_slice()))),
        Err(EngineError::FormatMismatch)
    );
}

#[test]
fn failed_exit_is_a_failed_candidate() {
    assert_eq!(
        evaluate_invocation(false, b"whatever"),
        Ok(CleanupResult::Failed)
    );
}

#[test]
fn noop_output_is_a_noop_candidate() {
    assert_eq!(
        evaluate_invocation(true, b"Removed 0 files, 0.00KiB total"),
        Ok(CleanupResult::NoOp)
    );
}

#[test]
fn summary_output_is_a_cleaned_candidate() {
    assert_eq!(
        evaluate_invocation(true, b"Removed 12 files, 3.50MiB total"),
        Ok(CleanupResult::Cleaned {
            files: 12,
            size_micro_kib: 3_584_000_000,
        })
    );
}

#[test]
fn unparseable_output_is_a_format_mismatch() {
    assert_eq!(
        evaluate_invocation(true, b"something unexpected"),
        Err(EngineError::FormatMismatch)
    );
}

#[test]
fn new_stats_are_zero() {
    let s = CleanupStats::new();
    assert_eq!(s.projects, 0);
    assert_eq!(s.files, 0);
    assert_eq!(s.size_micro_kib, 0);
}

#[test]
fn record_accumulates() {
    let mut s = CleanupStats::new();
    assert!(s.record(12, 3_584_000_000));
    assert!(s.record(3, 1_000_000));
    assert_eq!(s.projects, 2);
    assert_eq!(s.files, 15);
    assert_eq!(s.size_micro_kib, 3_585_000_000);
}

#[test]
fn aggregate_counts_only_cleaned_results() {
    let results = vec![
        CleanupResult::Skipped,
        CleanupResult::Cleaned {
            files: 12,
            size_micro_kib: 3_584_000_000,
        },
        CleanupResult::NoOp,
        CleanupResult::Failed,
        CleanupResult::Cleaned {
            files: 3,
            size_micro_kib: 16_000_000,
        },
    ];
    let s = aggregate(&results);
    assert_eq!(s.projects, 2);
    assert_eq!(s.files, 15);
    assert_eq!(s.size_micro_kib, 3_600_000_000);
}

#[test]
fn run_with_one_eligible_and_one_invalid_project() {
    // Project A is eligible and its cleanup reports 3.50MiB removed;
    // project B lacks the build-output directory and contributes nothing.
    let mut results: Vec<CleanupResult> = Vec::new();

    let a_class = classify(true, true, Some(500), 1_000);
    assert_eq!(a_class, Classification::Eligible);
    let a = evaluate_invocation(true, b"Removed 12 files, 3.50MiB total").unwrap();
    results.push(a);

    let b_class = classify(true, false, Some(500), 1_000);
    assert_eq!(b_class, Classification::NotAProject);
    results.push(CleanupResult::Skipped);

    let s = aggregate(&results);
    assert_eq!(s.projects, 1);
    assert_eq!(s.files, 12);
    // 3.50 x 1024 KiB, held in millionths of a kibibyte.
    assert_eq!(s.size_micro_kib, 3_584_000_000);
    assert_eq!(s.format_size(), "3.50MiB");
}

#[test]
fn noop_run_changes_nothing() {
    let outcome = evaluate_invocation(true, b"Removed 0 files, 0.00KiB total").unwrap();
    assert_eq!(outcome, CleanupResult::NoOp);
    let results = vec![outcome];
    let s = aggregate(&results);
    assert_eq!(s.projects, 0);
    assert_eq!(s.files, 0);
    assert_eq!(s.size_micro_kib, 0);
}

#[test]
fn sizes_format_with_ascending_unit_thresholds() {
    assert_eq!(format_micro_kib(0), "0.00KiB");
    assert_eq!(format_micro_kib(500_000), "0.50KiB");
    assert_eq!(format_micro_kib(1_023_990_000), "1023.99KiB");
    assert_eq!(format_micro_kib(1_024_000_000), "1.00MiB");
    assert_eq!(format_micro_kib(3_584_000_000), "3.50MiB");
    assert_eq!(format_micro_kib(1_048_575_999_999), "1023.99MiB");
    assert_eq!(format_micro_kib(1_048_576_000_000), "1.00GiB");
    assert_eq!(format_micro_kib(2_621_440_000_000), "2.50GiB");
}

#[test]
fn formatting_truncates_toward_zero() {
    // 1.999... MiB stays 1.99MiB rather than rounding up.
    assert_eq!(format_micro_kib(2_047_999_999), "1.99MiB");
}
