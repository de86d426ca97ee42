use ftplace::wire::{parse_timer_reply, ReplyMessage};
use ftplace::wire_board::parse_board_reply;
use ftplace::pattern::parse_pattern_file;

fn bytes(s: &str) -> Vec<u8> {
    s.as_bytes().to_vec()
}

#[test]
fn timer_reply_minimal() {
    let r = parse_timer_reply(&bytes(r#"{"timers":[]}"#)).unwrap();
    assert_eq!(r.timers.len(), 0);
    assert_eq!(r.message, ReplyMessage::Missing);
}

#[test]
fn timer_reply_with_timers() {
    let r = parse_timer_reply(&bytes(r#"{"timers":["2024-01-01T00:00:00Z","x"]}"#)).unwrap();
    assert_eq!(r.timers.len(), 2);
    assert_eq!(r.timers[0], b"2024-01-01T00:00:00Z".to_vec());
    assert_eq!(r.timers[1], b"x".to_vec());
}

#[test]
fn timer_reply_too_early() {
    let r = parse_timer_reply(&bytes(r#"{"message":"Too early","timers":["a"]}"#)).unwrap();
    assert_eq!(r.message, ReplyMessage::TooEarly);
    assert_eq!(r.timers.len(), 1);
}

#[test]
fn timer_reply_other_message() {
    let r = parse_timer_reply(&bytes(r#"{"timers":[],"message":"nope"}"#)).unwrap();
    assert_eq!(r.message, ReplyMessage::Other);
}

#[test]
fn timer_reply_null_message() {
    let r = parse_timer_reply(&bytes(r#"{"timers":[],"message":null}"#)).unwrap();
    assert_eq!(r.message, ReplyMessage::Missing);
}

#[test]
fn timer_reply_whitespace() {
    let r = parse_timer_reply(&bytes("  { \"timers\" : [ \"a\" , \"b\" ] }\n")).unwrap();
    assert_eq!(r.timers.len(), 2);
}

#[test]
fn timer_reply_missing_timers_is_malformed() {
    assert!(parse_timer_reply(&bytes(r#"{}"#)).is_none());
    assert!(parse_timer_reply(&bytes(r#"{"message":"Too early"}"#)).is_none());
}

#[test]
fn timer_reply_unknown_field_is_malformed() {
    assert!(parse_timer_reply(&bytes(r#"{"timers":[],"extra":1}"#)).is_none());
}

#[test]
fn timer_reply_duplicate_field_is_malformed() {
    assert!(parse_timer_reply(&bytes(r#"{"timers":[],"timers":[]}"#)).is_none());
}

#[test]
fn timer_reply_trailing_garbage_is_malformed() {
    assert!(parse_timer_reply(&bytes(r#"{"timers":[]} x"#)).is_none());
    assert!(parse_timer_reply(&bytes(r#"{"timers":[],}"#)).is_none());
}

#[test]
fn timer_reply_not_json() {
    assert!(parse_timer_reply(&bytes("")).is_none());
    assert!(parse_timer_reply(&bytes("Too early")).is_none());
    assert!(parse_timer_reply(&bytes("[1,2]")).is_none());
}

fn board_doc(colors: &str, board: &str) -> Vec<u8> {
    bytes(&format!(
        r#"{{"colors":{},"type":"board","board":{}}}"#,
        colors, board
    ))
}

fn cell(user: &str, color_id: i64) -> String {
    format!(
        r#"{{"username":"{}","color_id":{},"set_time":"2024-01-01"}}"#,
        user, color_id
    )
}

#[test]
fn board_reply_small() {
    let colors = r#"[{"id":1,"name":"red","red":255,"green":10,"blue":0}]"#;
    let board = format!(
        "[[{},{}],[{},{}]]",
        cell("a", 1),
        cell("b", 2),
        cell("c", 3),
        cell("d", 4)
    );
    let (palette, rows) = parse_board_reply(&board_doc(colors, &board)).unwrap();
    assert_eq!(palette.len(), 1);
    assert_eq!(palette[0].id, 1);
    assert_eq!(palette[0].name, "red");
    assert_eq!(palette[0].red, 255);
    assert_eq!(palette[0].green, 10);
    assert_eq!(palette[0].blue, 0);
    assert_eq!(rows, vec![vec![1u8, 2], vec![3u8, 4]]);
}

#[test]
fn board_reply_field_order_free() {
    let colors = r#"[{"name":"x","blue":3,"id":9,"green":2,"red":1}]"#;
    let board = "[]";
    let (palette, rows) = parse_board_reply(&board_doc(colors, board)).unwrap();
    assert_eq!(palette[0].id, 9);
    assert_eq!(palette[0].blue, 3);
    assert!(rows.is_empty());
}

#[test]
fn board_reply_name_with_escapes() {
    let colors = "[{\"id\":1,\"name\":\"r\\u00e9d\\n\",\"red\":0,\"green\":0,\"blue\":0}]";
    let (palette, _) = parse_board_reply(&board_doc(colors, "[]")).unwrap();
    assert_eq!(palette[0].name, "r\u{e9}d\n");
}

#[test]
fn board_reply_name_with_surrogate_pair() {
    let colors = "[{\"id\":1,\"name\":\"\\ud83d\\ude00\",\"red\":0,\"green\":0,\"blue\":0}]";
    let (palette, _) = parse_board_reply(&board_doc(colors, "[]")).unwrap();
    assert_eq!(palette[0].name, "\u{1F600}");
}

#[test]
fn board_reply_lone_surrogate_is_malformed() {
    let colors = r#"[{"id":1,"name":"\ud83d","red":0,"green":0,"blue":0}]"#;
    assert!(parse_board_reply(&board_doc(colors, "[]")).is_none());
}

#[test]
fn board_reply_color_out_of_range() {
    let colors = r#"[{"id":256,"name":"x","red":0,"green":0,"blue":0}]"#;
    assert!(parse_board_reply(&board_doc(colors, "[]")).is_none());
    let colors = r#"[{"id":-1,"name":"x","red":0,"green":0,"blue":0}]"#;
    assert!(parse_board_reply(&board_doc(colors, "[]")).is_none());
}

#[test]
fn board_reply_float_is_malformed() {
    let colors = r#"[{"id":1.0,"name":"x","red":0,"green":0,"blue":0}]"#;
    assert!(parse_board_reply(&board_doc(colors, "[]")).is_none());
}

#[test]
fn board_reply_leading_zero_is_malformed() {
    let colors = r#"[{"id":01,"name":"x","red":0,"green":0,"blue":0}]"#;
    assert!(parse_board_reply(&board_doc(colors, "[]")).is_none());
}

#[test]
fn board_reply_missing_cell_field_is_malformed() {
    let board = r#"[[{"color_id":1,"set_time":"t"}]]"#;
    let colors = r#"[]"#;
    assert!(parse_board_reply(&board_doc(colors, board)).is_none());
}

#[test]
fn board_reply_missing_type_is_malformed() {
    let doc = bytes(r#"{"colors":[],"board":[]}"#);
    assert!(parse_board_reply(&doc).is_none());
}

#[test]
fn pattern_file_small() {
    let p = parse_pattern_file(&bytes(
        r#"{"pattern":[{"x":1,"y":-2,"color":3},{"color":0,"x":-7,"y":0}]}"#,
    ))
    .unwrap();
    assert_eq!(p.pattern.len(), 2);
    assert_eq!(p.pattern[0].x, 1);
    assert_eq!(p.pattern[0].y, -2);
    assert_eq!(p.pattern[0].color, 3);
    assert_eq!(p.pattern[1].x, -7);
    assert_eq!(p.pattern[1].color, 0);
}

#[test]
fn pattern_file_empty() {
    let p = parse_pattern_file(&bytes(r#"{"pattern":[]}"#)).unwrap();
    assert!(p.pattern.is_empty());
}

#[test]
fn pattern_file_malformed() {
    assert!(parse_pattern_file(&bytes(r#"{"pattern":[{"x":1,"y":2}]}"#)).is_none());
    assert!(parse_pattern_file(&bytes(r#"{"pixels":[]}"#)).is_none());
    assert!(parse_pattern_file(&bytes(r#"{"pattern":[{"x":2147483648,"y":0,"color":0}]}"#)).is_none());
}

#[test]
fn timer_reply_escaped_quote_in_timer() {
    let r = parse_timer_reply(&bytes(r#"{"timers":["a\"b\\c"]}"#)).unwrap();
    assert_eq!(r.timers[0], b"a\"b\\c".to_vec());
}

#[test]
fn raw_control_byte_in_string_is_malformed() {
    let mut doc = b"{\"timers\":[\"a".to_vec();
    doc.push(0x01);
    doc.extend_from_slice(b"\"]}");
    assert!(parse_timer_reply(&doc).is_none());
}
