use xtask::headers::find_header_value;
use xtask::time::{origin_modified_from_head, resolved_modified};
use xtask::Timestamp;

#[test]
fn a_well_formed_date_header_becomes_the_origin_timestamp() {
    let head = "HTTP/1.1 200 OK\r\ndate: Wed, 18 Feb 2015 23:16:09 GMT\r\ncontent-type: text/html\r\n";
    let resolved = origin_modified_from_head(head);
    assert_eq!(resolved.epoch_seconds, 1424301369);
    assert_eq!(resolved.offset_seconds, 0);
}

#[test]
fn a_date_header_with_an_offset_keeps_it() {
    let head = "date: Wed, 18 Feb 2015 23:16:09 +0200\n";
    let resolved = origin_modified_from_head(head);
    assert_eq!(resolved.epoch_seconds, 1424301369 - 7200);
    assert_eq!(resolved.offset_seconds, 7200);
}

#[test]
fn a_missing_date_header_falls_back_to_now() {
    let before = chrono::Utc::now().timestamp();
    let resolved = origin_modified_from_head("HTTP/1.1 200 OK\r\ncontent-type: text/html\r\n");
    let after = chrono::Utc::now().timestamp();
    assert!(before <= resolved.epoch_seconds && resolved.epoch_seconds <= after);
    assert_eq!(resolved.offset_seconds, 0);
}

#[test]
fn a_malformed_date_header_falls_back_to_now() {
    let before = chrono::Utc::now().timestamp();
    let resolved = origin_modified_from_head("date: not a date at all\r\n");
    let after = chrono::Utc::now().timestamp();
    assert!(before <= resolved.epoch_seconds && resolved.epoch_seconds <= after);
    assert_eq!(resolved.offset_seconds, 0);
}

#[test]
fn the_last_matching_header_wins() {
    let head = "date: Wed, 18 Feb 2015 23:16:09 GMT\r\ndate: Thu, 19 Feb 2015 00:00:00 GMT\r\n";
    let resolved = origin_modified_from_head(head);
    assert_eq!(resolved.epoch_seconds, 1424304000);
}

#[test]
fn header_values_are_everything_after_the_first_colon() {
    let head = "content-type: text/html\r\nx: a:b:c\nplain line without colon\n";
    assert_eq!(find_header_value(head, "content-type").unwrap(), " text/html");
    assert_eq!(find_header_value(head, "x").unwrap(), " a:b:c");
    assert_eq!(find_header_value(head, "date"), None);
    assert_eq!(find_header_value(head, "plain line without colon"), None);
}

#[test]
fn the_fallback_decision_prefers_a_parsed_header() {
    let now = Timestamp { epoch_seconds: 555, offset_seconds: 0 };
    let header = String::from("Wed, 18 Feb 2015 23:16:09 GMT");
    let resolved = resolved_modified(Some(&header), now);
    assert_eq!(resolved.epoch_seconds, 1424301369);
    let fallback = resolved_modified(None, now);
    assert_eq!(fallback, now);
    let garbled = String::from("yesterday-ish");
    assert_eq!(resolved_modified(Some(&garbled), now), now);
}
