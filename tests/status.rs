use console_bridge::status::parse_status;

#[test]
fn test_parse() {
    assert!(parse_status("57 TPS / 274 MB / 7 PLAYERS") == Some((57, 274, 7)));
}

#[test]
fn status_needs_exactly_three_numbered_pieces() {
    assert_eq!(parse_status("57 TPS / 274 MB"), None);
    assert_eq!(parse_status("57 TPS / 274 MB / 7 PLAYERS / 1 X"), None);
    assert_eq!(parse_status("57 TPS / many MB / 7 PLAYERS"), None);
    assert_eq!(parse_status("57 / 274 MB / 7 PLAYERS"), None);
    assert_eq!(parse_status(""), None);
}

#[test]
fn status_numbers_follow_u32_rules() {
    assert_eq!(parse_status("+1 a/ 2 b /\u{3000}3 c"), Some((1, 2, 3)));
    assert_eq!(parse_status("4294967295 a/0 b/1 c"), Some((4294967295, 0, 1)));
    assert_eq!(parse_status("4294967296 a/0 b/1 c"), None);
    assert_eq!(parse_status("-1 a/0 b/1 c"), None);
    assert_eq!(parse_status("+ a/0 b/1 c"), None);
}
