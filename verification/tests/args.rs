use anytls::{parse_u64, parse_usize, ArgError, IntErrorKind};

fn flag() -> String {
    "--idle-session-timeout".to_string()
}

#[test]
fn parse_u64_accepts_positive_numbers() {
    assert_eq!(parse_u64("30", "--idle-session-timeout"), Ok(30));
    assert_eq!(parse_u64("+5", "--idle-session-timeout"), Ok(5));
    assert_eq!(parse_u64("18446744073709551615", "--idle-session-timeout"), Ok(u64::MAX));
}

#[test]
fn parse_u64_refuses_zero() {
    assert_eq!(parse_u64("0", "--idle-session-timeout"), Err(ArgError::Zero { flag: flag() }));
    assert_eq!(parse_u64("000", "--idle-session-timeout"), Err(ArgError::Zero { flag: flag() }));
}

#[test]
fn parse_u64_reports_why_a_value_is_no_number() {
    let err = |kind| Err(ArgError::NotPositiveInteger { flag: flag(), kind });
    assert_eq!(parse_u64("", "--idle-session-timeout"), err(IntErrorKind::Empty));
    assert_eq!(parse_u64("+", "--idle-session-timeout"), err(IntErrorKind::InvalidDigit));
    assert_eq!(parse_u64("-1", "--idle-session-timeout"), err(IntErrorKind::InvalidDigit));
    assert_eq!(parse_u64("1x", "--idle-session-timeout"), err(IntErrorKind::InvalidDigit));
    assert_eq!(parse_u64(" 1", "--idle-session-timeout"), err(IntErrorKind::InvalidDigit));
    assert_eq!(parse_u64("18446744073709551616", "--idle-session-timeout"), err(IntErrorKind::PosOverflow));
    assert_eq!(parse_u64("99999999999999999999x", "--idle-session-timeout"), err(IntErrorKind::PosOverflow));
}

#[test]
fn parse_u64_agrees_with_std() {
    for s in ["1", "42", "+7", "", "+", "-3", "12a", "a12", "18446744073709551615", "18446744073709551616", "0x10", "٣"] {
        match s.parse::<u64>() {
            Ok(0) => assert!(matches!(parse_u64(s, "-I"), Err(ArgError::Zero { .. }))),
            Ok(v) => assert_eq!(parse_u64(s, "-I"), Ok(v)),
            Err(_) => assert!(matches!(parse_u64(s, "-I"), Err(ArgError::NotPositiveInteger { .. }))),
        }
    }
}

#[test]
fn parse_usize_accepts_zero() {
    assert_eq!(parse_usize("0", "--min-idle-session"), Ok(0));
    assert_eq!(parse_usize("12", "--min-idle-session"), Ok(12));
    assert_eq!(
        parse_usize("x", "--min-idle-session"),
        Err(ArgError::NotNonNegativeInteger {
            flag: "--min-idle-session".to_string(),
            kind: IntErrorKind::InvalidDigit
        })
    );
    assert_eq!(
        parse_usize("", "--min-idle-session"),
        Err(ArgError::NotNonNegativeInteger {
            flag: "--min-idle-session".to_string(),
            kind: IntErrorKind::Empty
        })
    );
}
