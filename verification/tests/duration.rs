use target_sweep::duration::{DurationError, TimeParser};

#[test]
fn minutes_scale_by_sixty() {
    assert_eq!(TimeParser::parse_duration("15m"), Ok(900));
}

#[test]
fn hours_scale_by_3600() {
    assert_eq!(TimeParser::parse_duration("3h"), Ok(10800));
}

#[test]
fn days_scale_by_86400() {
    assert_eq!(TimeParser::parse_duration("2d"), Ok(172800));
}

#[test]
fn weeks_scale_by_604800() {
    assert_eq!(TimeParser::parse_duration("1w"), Ok(604800));
}

#[test]
fn zero_is_allowed() {
    assert_eq!(TimeParser::parse_duration("0m"), Ok(0));
}

#[test]
fn multi_digit_values() {
    assert_eq!(TimeParser::parse_duration("120m"), Ok(7200));
}

#[test]
fn unknown_unit_letter() {
    assert_eq!(
        TimeParser::parse_duration("5x"),
        Err(DurationError::UnknownUnit)
    );
    assert_eq!(
        TimeParser::parse_duration("5s"),
        Err(DurationError::UnknownUnit)
    );
}

#[test]
fn non_numeric_prefix() {
    assert_eq!(
        TimeParser::parse_duration("abm"),
        Err(DurationError::InvalidFormat)
    );
    assert_eq!(
        TimeParser::parse_duration("1.5h"),
        Err(DurationError::InvalidFormat)
    );
}

#[test]
fn empty_prefix() {
    assert_eq!(
        TimeParser::parse_duration("m"),
        Err(DurationError::InvalidFormat)
    );
}

#[test]
fn prefix_beyond_u64() {
    assert_eq!(
        TimeParser::parse_duration("99999999999999999999m"),
        Err(DurationError::InvalidFormat)
    );
}

#[test]
fn seconds_beyond_u64() {
    // The value itself fits, but times a week's seconds it does not.
    assert_eq!(
        TimeParser::parse_duration("4000000000000000000w"),
        Err(DurationError::InvalidFormat)
    );
}

#[test]
fn bad_prefix_reported_before_bad_unit() {
    assert_eq!(
        TimeParser::parse_duration("abx"),
        Err(DurationError::InvalidFormat)
    );
}
