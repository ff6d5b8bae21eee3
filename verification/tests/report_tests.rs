use hackatime_setup::report::{find_seconds_text, parse_u16, read_today_seconds, split_hours_minutes};

#[test]
fn total_is_read_from_the_answer() {
    let body = br#"{"data":{"grand_total":{"text":"1h 2m","total_seconds":3720}}}"#;
    assert_eq!(find_seconds_text(body), Some(b"3720".to_vec()));
    assert_eq!(read_today_seconds(body), Some(3720));
    assert_eq!(read_today_seconds(br#"{"total_seconds":0}}}"#), Some(0));
    assert_eq!(read_today_seconds(br#"{"total_seconds":65535}}}"#), Some(65535));
}

#[test]
fn answer_of_another_shape_gives_nothing() {
    assert_eq!(read_today_seconds(b""), None);
    assert_eq!(read_today_seconds(br#"{"error":"unauthorized"}"#), None);
    assert_eq!(read_today_seconds(br#"{"total_seconds":12"#), None);
    assert_eq!(read_today_seconds(br#"{"total_seconds":65536}}}"#), None);
    assert_eq!(read_today_seconds(br#"{"total_seconds":37.5}}}"#), None);
    assert_eq!(read_today_seconds(br#"{"total_seconds": 37}}}"#), None);
    assert_eq!(read_today_seconds(br#"{"total_seconds":}}}"#), None);
}

#[test]
fn text_ends_at_the_next_label() {
    let body = br#""total_seconds":12345"total_seconds":7}}}"#;
    assert_eq!(find_seconds_text(body), Some(b"12".to_vec()));
    assert_eq!(read_today_seconds(body), Some(12));
}

#[test]
fn numbers_are_parsed() {
    assert_eq!(parse_u16(b"0"), Some(0));
    assert_eq!(parse_u16(b"7"), Some(7));
    assert_eq!(parse_u16(b"+5"), Some(5));
    assert_eq!(parse_u16(b"00012"), Some(12));
    assert_eq!(parse_u16(b"65535"), Some(65535));
    assert_eq!(parse_u16(b"0000000000000000065535"), Some(65535));
    assert_eq!(parse_u16(b"65536"), None);
    assert_eq!(parse_u16(b"99999999999999999999999999"), None);
    assert_eq!(parse_u16(b""), None);
    assert_eq!(parse_u16(b"+"), None);
    assert_eq!(parse_u16(b"-1"), None);
    assert_eq!(parse_u16(b"++1"), None);
    assert_eq!(parse_u16(b"12a"), None);
    assert_eq!(parse_u16(b" 12"), None);
    assert_eq!(parse_u16(b"70000x"), None);
}

#[test]
fn parse_agrees_with_std() {
    for text in ["0", "1", "42", "+42", "065", "65535", "65536", "", "+", "4 2", "x", "123456"] {
        assert_eq!(parse_u16(text.as_bytes()), text.parse::<u16>().ok());
    }
}

#[test]
fn seconds_are_split() {
    assert_eq!(split_hours_minutes(0), (0, 0));
    assert_eq!(split_hours_minutes(59), (0, 0));
    assert_eq!(split_hours_minutes(60), (0, 1));
    assert_eq!(split_hours_minutes(3599), (0, 59));
    assert_eq!(split_hours_minutes(3600), (1, 0));
    assert_eq!(split_hours_minutes(3720), (1, 2));
    assert_eq!(split_hours_minutes(65535), (18, 12));
}
