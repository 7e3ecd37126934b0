use target_sweep::output::{parse_clean_output, CleanOutcome};

#[test]
fn mebibytes_scale_by_1024() {
    let r = parse_clean_output(b"Removed 12 files, 3.50MiB total");
    assert_eq!(
        r,
        CleanOutcome::Removed {
            files: 12,
            size_micro_kib: 3_584_000_000,
        }
    );
}

#[test]
fn kibibytes_scale_by_one() {
    let r = parse_clean_output(b"Removed 1 files, 2.5KiB total");
    assert_eq!(
        r,
        CleanOutcome::Removed {
            files: 1,
            size_micro_kib: 2_500_000,
        }
    );
}

#[test]
fn gibibytes_scale_by_1024_squared() {
    let r = parse_clean_output(b"Removed 7 files, 1.25GiB total");
    assert_eq!(
        r,
        CleanOutcome::Removed {
            files: 7,
            size_micro_kib: 1_310_720_000_000,
        }
    );
}

#[test]
fn size_without_decimal_point() {
    let r = parse_clean_output(b"Removed 3 files, 17KiB total");
    assert_eq!(
        r,
        CleanOutcome::Removed {
            files: 3,
            size_micro_kib: 17_000_000,
        }
    );
}

#[test]
fn noop_phrase_short_circuits() {
    let r = parse_clean_output(b"Removed 0 files, 0.00KiB total");
    assert_eq!(r, CleanOutcome::NoOpRemoved);
}

#[test]
fn noop_phrase_anywhere_wins() {
    let r = parse_clean_output(b"Removed 9 files, 1.00MiB total\nRemoved 0 files");
    assert_eq!(r, CleanOutcome::NoOpRemoved);
}

#[test]
fn summary_found_amid_other_text() {
    let r = parse_clean_output(b"   Cleaning...\nRemoved 4 files, 1.00MiB total in /tmp/proj\n");
    assert_eq!(
        r,
        CleanOutcome::Removed {
            files: 4,
            size_micro_kib: 1_024_000_000,
        }
    );
}

#[test]
fn leftmost_summary_decides() {
    let r = parse_clean_output(b"Removed 2 files, 1.00KiB total Removed 5 files, 9.00KiB total");
    assert_eq!(
        r,
        CleanOutcome::Removed {
            files: 2,
            size_micro_kib: 1_000_000,
        }
    );
}

#[test]
fn unrelated_text_is_unparseable() {
    let r = parse_clean_output(b"error: failed to clean anything");
    assert_eq!(r, CleanOutcome::Unparseable);
}

#[test]
fn unknown_unit_is_unparseable() {
    let r = parse_clean_output(b"Removed 5 files, 1.00TiB total");
    assert_eq!(r, CleanOutcome::Unparseable);
}

#[test]
fn missing_total_marker_is_unparseable() {
    let r = parse_clean_output(b"Removed 5 files, 1.00MiB");
    assert_eq!(r, CleanOutcome::Unparseable);
}

#[test]
fn empty_text_is_unparseable() {
    let r = parse_clean_output(b"");
    assert_eq!(r, CleanOutcome::Unparseable);
}

#[test]
fn reparsing_yields_the_same_outcome() {
    let text: &[u8] = b"Removed 12 files, 3.50MiB total";
    let first = parse_clean_output(text);
    let second = parse_clean_output(text);
    assert_eq!(first, second);
}
