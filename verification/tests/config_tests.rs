//! Tests of the position-specification parser.

use stpro::config::{parse_split_config, SplitFlags, SplitParseError};

#[test]
fn plain_offset() {
    let cfg = parse_split_config("5").unwrap();
    assert_eq!(cfg.offset, 5);
    assert_eq!(cfg.flags, SplitFlags::default());
    assert_eq!(cfg.repeats, None);
    assert_eq!(cfg.skip, None);
}

#[test]
fn negative_offset_with_end_flag() {
    let cfg = parse_split_config("-10+e").unwrap();
    assert_eq!(cfg.offset, -10);
    assert!(cfg.flags.end);
    assert!(!cfg.flags.sni && !cfg.flags.host && !cfg.flags.middle);
}

#[test]
fn all_flags() {
    let cfg = parse_split_config("1+shem").unwrap();
    assert!(cfg.flags.sni && cfg.flags.host && cfg.flags.end && cfg.flags.middle);
}

#[test]
fn unknown_flag_letters_are_ignored() {
    let cfg = parse_split_config("1+sxq").unwrap();
    assert!(cfg.flags.sni);
    assert!(!cfg.flags.host && !cfg.flags.end && !cfg.flags.middle);
}

#[test]
fn repeats_and_skip() {
    let cfg = parse_split_config("3:2:1+sm").unwrap();
    assert_eq!(cfg.offset, 3);
    assert_eq!(cfg.repeats, Some(2));
    assert_eq!(cfg.skip, Some(1));
    assert!(cfg.flags.sni && cfg.flags.middle);
}

#[test]
fn repeats_without_skip() {
    let cfg = parse_split_config("5:2").unwrap();
    assert_eq!(cfg.offset, 5);
    assert_eq!(cfg.repeats, Some(2));
    assert_eq!(cfg.skip, None);
}

#[test]
fn unparsable_repeats_is_dropped() {
    let cfg = parse_split_config("3:x:1").unwrap();
    assert_eq!(cfg.offset, 3);
    assert_eq!(cfg.repeats, None);
    assert_eq!(cfg.skip, Some(1));
}

#[test]
fn invalid_offset_is_an_error() {
    assert_eq!(parse_split_config("abc").unwrap_err(), SplitParseError::InvalidOffset);
    assert_eq!(parse_split_config("").unwrap_err(), SplitParseError::InvalidOffset);
    assert_eq!(parse_split_config("+s").unwrap_err(), SplitParseError::InvalidOffset);
    assert_eq!(parse_split_config("-").unwrap_err(), SplitParseError::InvalidOffset);
    assert_eq!(parse_split_config("5x").unwrap_err(), SplitParseError::InvalidOffset);
}

#[test]
fn extreme_offsets() {
    assert_eq!(parse_split_config("9223372036854775807").unwrap().offset, i64::MAX);
    assert_eq!(parse_split_config("-9223372036854775808").unwrap().offset, i64::MIN);
    assert_eq!(
        parse_split_config("9223372036854775808").unwrap_err(),
        SplitParseError::InvalidOffset
    );
    assert_eq!(
        parse_split_config("-9223372036854775809").unwrap_err(),
        SplitParseError::InvalidOffset
    );
    assert_eq!(parse_split_config("007").unwrap().offset, 7);
}

#[test]
fn extra_colon_parts_are_ignored() {
    let cfg = parse_split_config("5:2:1:9").unwrap();
    assert_eq!(cfg.offset, 5);
    assert_eq!(cfg.repeats, Some(2));
    assert_eq!(cfg.skip, Some(1));
}
