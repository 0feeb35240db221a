use pdf_transcribe::dispatch::{range_page_total, validate_page_range};
use pdf_transcribe::ConfigError;

#[test]
fn range_zero_start_rejected() {
    let r = validate_page_range(Some(0), Some(5), 10);
    assert_eq!(r, Err(ConfigError::ZeroPageStart));
}

#[test]
fn range_end_before_start_rejected() {
    let r = validate_page_range(Some(4), Some(3), 10);
    assert_eq!(r, Err(ConfigError::PageEndBeforeStart));
}

#[test]
fn range_end_beyond_count_rejected() {
    let r = validate_page_range(Some(1), Some(11), 10);
    assert_eq!(r, Err(ConfigError::PageEndBeyondCount));
}

#[test]
fn range_defaults_to_whole_document() {
    let r = validate_page_range(None, None, 7);
    assert_eq!(r, Ok((1, 7)));
}

#[test]
fn range_explicit_bounds_accepted() {
    let r = validate_page_range(Some(2), Some(5), 10);
    assert_eq!(r, Ok((2, 5)));
}

#[test]
fn range_default_end_still_checked_against_start() {
    let r = validate_page_range(Some(9), None, 7);
    assert_eq!(r, Err(ConfigError::PageEndBeforeStart));
}

#[test]
fn range_single_page() {
    let r = validate_page_range(Some(3), Some(3), 10);
    assert_eq!(r, Ok((3, 3)));
    assert_eq!(range_page_total(3, 3), 1);
}

#[test]
fn range_total_counts_inclusively() {
    assert_eq!(range_page_total(2, 5), 4);
}

#[test]
fn range_zero_start_takes_precedence() {
    let r = validate_page_range(Some(0), Some(20), 10);
    assert_eq!(r, Err(ConfigError::ZeroPageStart));
}
