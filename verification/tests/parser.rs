use panda_knocker::ports::{parse, parse_delay, ParseReason};

#[test]
fn mixed_list_keeps_valid_ports_and_reports_the_bad_token() {
    let (ports, diags) = parse("5000, 6000, abc, 7000");
    assert_eq!(ports, vec![5000, 6000, 7000]);
    assert_eq!(diags.len(), 1);
    assert_eq!(diags[0].position, 3);
    assert_eq!(diags[0].token, "abc");
    assert_eq!(diags[0].reason, ParseReason::NotNumeric);
}

#[test]
fn empty_text_gives_no_ports_and_no_diagnostics() {
    let (ports, diags) = parse("");
    assert!(ports.is_empty());
    assert!(diags.is_empty());
}

#[test]
fn blank_tokens_are_skipped_silently() {
    let (ports, diags) = parse(",,  ,");
    assert!(ports.is_empty());
    assert!(diags.is_empty());
}

#[test]
fn out_of_range_port_gives_one_diagnostic_at_position_one() {
    let (ports, diags) = parse("70000");
    assert!(ports.is_empty());
    assert_eq!(diags.len(), 1);
    assert_eq!(diags[0].position, 1);
    assert_eq!(diags[0].token, "70000");
    assert_eq!(diags[0].reason, ParseReason::OutOfRange);
}

#[test]
fn duplicates_are_preserved_in_order() {
    let (ports, diags) = parse("7000, 5000, 7000");
    assert_eq!(ports, vec![7000, 5000, 7000]);
    assert!(diags.is_empty());
}

#[test]
fn whitespace_around_tokens_is_trimmed() {
    let (ports, diags) = parse("  80 ,\t443\t, 8080  ");
    assert_eq!(ports, vec![80, 443, 8080]);
    assert!(diags.is_empty());
}

#[test]
fn port_range_bounds_are_exact() {
    let (ports, diags) = parse("0, 65535, 65536");
    assert_eq!(ports, vec![0, 65535]);
    assert_eq!(diags.len(), 1);
    assert_eq!(diags[0].position, 3);
    assert_eq!(diags[0].reason, ParseReason::OutOfRange);
}

#[test]
fn leading_plus_sign_is_accepted_as_rust_integer_parsing_does() {
    let (ports, diags) = parse("+22");
    assert_eq!(ports, vec![22]);
    assert!(diags.is_empty());
}

#[test]
fn a_bare_sign_is_not_numeric() {
    let (ports, diags) = parse("+");
    assert!(ports.is_empty());
    assert_eq!(diags.len(), 1);
    assert_eq!(diags[0].position, 1);
    assert_eq!(diags[0].token, "+");
    assert_eq!(diags[0].reason, ParseReason::NotNumeric);
}

#[test]
fn negative_numbers_and_huge_garbage_are_rejected_individually() {
    let (ports, diags) = parse("-1, 99999999999999999999999, 8.5, 1e3");
    assert!(ports.is_empty());
    assert_eq!(diags.len(), 4);
    assert_eq!(diags[0].position, 1);
    assert_eq!(diags[0].reason, ParseReason::NotNumeric);
    assert_eq!(diags[1].position, 2);
    assert_eq!(diags[1].reason, ParseReason::OutOfRange);
    assert_eq!(diags[2].position, 3);
    assert_eq!(diags[2].reason, ParseReason::NotNumeric);
    assert_eq!(diags[3].position, 4);
    assert_eq!(diags[3].reason, ParseReason::NotNumeric);
}

#[test]
fn positions_count_skipped_empty_tokens() {
    let (ports, diags) = parse(", 5000, , x, 6000");
    assert_eq!(ports, vec![5000, 6000]);
    assert_eq!(diags.len(), 1);
    assert_eq!(diags[0].position, 4);
    assert_eq!(diags[0].token, "x");
}

#[test]
fn reasons_have_descriptive_texts() {
    let (_, diags) = parse("oops, 70000");
    assert_eq!(diags[0].reason_text(), "not a number");
    assert_eq!(diags[1].reason_text(), "out of range for a 16-bit port");
}

#[test]
fn delay_text_parses_with_surrounding_whitespace() {
    assert_eq!(parse_delay(" 1500 "), Some(1500));
    assert_eq!(parse_delay("0"), Some(0));
    assert_eq!(parse_delay("18446744073709551615"), Some(u64::MAX));
}

#[test]
fn delay_text_rejects_non_numbers_and_overflow() {
    assert_eq!(parse_delay(""), None);
    assert_eq!(parse_delay("fast"), None);
    assert_eq!(parse_delay("-5"), None);
    assert_eq!(parse_delay("18446744073709551616"), None);
    assert_eq!(parse_delay("12 34"), None);
}
