use multi_proxy::event::Event;
use multi_proxy::groups::{parse_group, totals_reply, GroupTotals};

#[test]
fn group_request_lines() {
    assert_eq!(parse_group(b"7"), Some(7));
    assert_eq!(parse_group(b"42\n"), Some(42));
    assert_eq!(parse_group(b"42\r\n"), Some(42));
    assert_eq!(parse_group(b"4294967295"), Some(u32::MAX));
    assert_eq!(parse_group(b"4294967296"), None);
    assert_eq!(parse_group(b"99999999999999999999"), None);
    assert_eq!(parse_group(b""), None);
    assert_eq!(parse_group(b"\r\n"), None);
    assert_eq!(parse_group(b"-1"), None);
    assert_eq!(parse_group(b"1 2"), None);
}

#[test]
fn totals_reply_is_json() {
    assert_eq!(totals_reply(0, 0), b"{\"ul\":0,\"dl\":0}".to_vec());
    assert_eq!(totals_reply(1234, 18446744073709551615), b"{\"ul\":1234,\"dl\":18446744073709551615}".to_vec());
}

#[test]
fn totals_add_up_per_group() {
    let mut t = GroupTotals::new();
    assert_eq!(t.lookup_group(1), None);
    t.record(1, &Event::Upload(100));
    t.record(1, &Event::Download(7));
    t.record(2, &Event::Upload(5));
    t.record(1, &Event::Upload(1));
    t.record(1, &Event::Done);
    t.record(3, &Event::Retry);
    assert_eq!(t.lookup_group(1), Some((101, 7)));
    assert_eq!(t.lookup_group(2), Some((5, 0)));
    assert_eq!(t.lookup_group(3), None);
}
