use assay::duration::{format_millis, parse_duration};

#[test]
fn documented_examples() {
    assert_eq!(parse_duration("30s"), Ok(30000));
    assert_eq!(parse_duration("500ms"), Ok(500));
    assert_eq!(parse_duration("2m"), Ok(120000));
    assert_eq!(parse_duration("45"), Ok(45000));
}

#[test]
fn units_ignore_ascii_case() {
    assert_eq!(parse_duration("30S"), Ok(30000));
    assert_eq!(parse_duration("30Secs"), Ok(30000));
    assert_eq!(parse_duration("500MS"), Ok(500));
    assert_eq!(parse_duration("2Min"), Ok(120000));
    assert_eq!(parse_duration("1 MINUTES"), Ok(60000));
    assert_eq!(parse_duration("3 milliseconds"), Ok(3));
}

#[test]
fn white_space_around_and_between() {
    assert_eq!(parse_duration("  10 secs \n"), Ok(10000));
    assert_eq!(parse_duration("\t7\t"), Ok(7000));
}

#[test]
fn distinct_errors() {
    assert_eq!(parse_duration(""), Err("duration cannot be empty".to_string()));
    assert_eq!(parse_duration("   "), Err("duration cannot be empty".to_string()));
    assert_eq!(parse_duration("abc"), Err("invalid duration 'abc': missing number".to_string()));
    assert_eq!(
        parse_duration("10x"),
        Err("unknown duration unit: 'x'\nvalid units: s, ms, m".to_string())
    );
    assert_eq!(parse_duration("0s"), Err("timeout cannot be zero".to_string()));
    assert_eq!(parse_duration("0"), Err("timeout cannot be zero".to_string()));
}

#[test]
fn unknown_unit_is_named_in_lower_case() {
    assert_eq!(
        parse_duration("10 Hours"),
        Err("unknown duration unit: 'hours'\nvalid units: s, ms, m".to_string())
    );
}

#[test]
fn overflow_and_invalid_number() {
    assert_eq!(parse_duration("18446744073709551615m"), Err("timeout duration overflow".to_string()));
    assert_eq!(parse_duration("18446744073709551615ms"), Ok(18446744073709551615));
    assert_eq!(
        parse_duration("99999999999999999999s"),
        Err("invalid number in duration: '99999999999999999999'".to_string())
    );
}

#[test]
fn millis_shown_for_people() {
    assert_eq!(format_millis(2000), "2s");
    assert_eq!(format_millis(60000), "60s");
    assert_eq!(format_millis(1500), "1500ms");
    assert_eq!(format_millis(500), "500ms");
    assert_eq!(format_millis(1), "1ms");
}
