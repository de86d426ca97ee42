use ftplace::pattern::{parse_i32_str, parse_patterns, parse_u32_str};

#[test]
fn pattern_argument_parses() {
    let a = parse_patterns("art/flag.json 10 -20 3").unwrap();
    assert_eq!(a.pattern_path, "art/flag.json");
    assert_eq!(a.x, 10);
    assert_eq!(a.y, -20);
    assert_eq!(a.priority, 3);
}

#[test]
fn pattern_argument_wrong_field_count() {
    let e = parse_patterns("p 1 2").unwrap_err();
    assert_eq!(e, "Invalid pattern arguments p 1 2");
    let e = parse_patterns("p 1 2 3 4").unwrap_err();
    assert_eq!(e, "Invalid pattern arguments p 1 2 3 4");
}

#[test]
fn pattern_argument_bad_x() {
    let e = parse_patterns("p a 2 3").unwrap_err();
    assert_eq!(e, "Invalid x coordinate: a");
}

#[test]
fn pattern_argument_bad_y() {
    let e = parse_patterns("p 1 2.5 3").unwrap_err();
    assert_eq!(e, "Invalid y coordinate: 2.5");
}

#[test]
fn pattern_argument_bad_priority() {
    let e = parse_patterns("p 1 2 -3").unwrap_err();
    assert_eq!(e, "Invalid y priority: -3");
}

#[test]
fn pattern_argument_double_space_gives_empty_field() {
    let e = parse_patterns("p  1 2").unwrap_err();
    assert_eq!(e, "Invalid x coordinate: ");
}

#[test]
fn i32_bounds() {
    assert_eq!(parse_i32_str("2147483647"), Some(i32::MAX));
    assert_eq!(parse_i32_str("2147483648"), None);
    assert_eq!(parse_i32_str("-2147483648"), Some(i32::MIN));
    assert_eq!(parse_i32_str("-2147483649"), None);
    assert_eq!(parse_i32_str("99999999999999999999999999"), None);
}

#[test]
fn i32_forms() {
    assert_eq!(parse_i32_str("+42"), Some(42));
    assert_eq!(parse_i32_str("-0"), Some(0));
    assert_eq!(parse_i32_str("007"), Some(7));
    assert_eq!(parse_i32_str(""), None);
    assert_eq!(parse_i32_str("-"), None);
    assert_eq!(parse_i32_str("4e2"), None);
    assert_eq!(parse_i32_str(" 4"), None);
}

#[test]
fn u32_bounds() {
    assert_eq!(parse_u32_str("4294967295"), Some(u32::MAX));
    assert_eq!(parse_u32_str("4294967296"), None);
    assert_eq!(parse_u32_str("+8"), Some(8));
    assert_eq!(parse_u32_str("-1"), None);
    assert_eq!(parse_u32_str(""), None);
}

#[test]
fn pattern_argument_with_non_ascii_path() {
    let a = parse_patterns("p\u{e5}th/\u{1F600}.json 1 2 3").unwrap();
    assert_eq!(a.pattern_path, "p\u{e5}th/\u{1F600}.json");
    assert_eq!((a.x, a.y, a.priority), (1, 2, 3));
}
