use sosial_video::clock::{calendar_day, rfc3339};
use sosial_video::ids::{new_token, parse_token, token_byte_at, token_hex, token_text};
use sosial_video::service::{db_wait_step, DbWait};
use sosial_video::text::{same_text, trim_str};

#[test]
fn instants_in_rfc3339() {
    assert_eq!(rfc3339(0), "1970-01-01T00:00:00+00:00");
    assert_eq!(rfc3339(1_662_921_288_000_000_000), "2022-09-11T18:34:48+00:00");
    assert_eq!(rfc3339(1_662_921_288_123_456_000), "2022-09-11T18:34:48.123456+00:00");
    assert_eq!(rfc3339(-1), "1969-12-31T23:59:59.999999999+00:00");
    assert_eq!(calendar_day(1_662_921_288_000_000_000), "2022-09-11");
}

#[test]
fn identifiers() {
    let v: u128 = 0x550e8400_e29b_41d4_a716_446655440000;
    assert_eq!(token_text(v), "550e8400-e29b-41d4-a716-446655440000");
    assert_eq!(token_hex(v), "550e8400e29b41d4a716446655440000");
    assert_eq!(parse_token("550e8400-e29b-41d4-a716-446655440000"), Some(v));
    assert_eq!(parse_token("550e8400e29b41d4a716446655440000"), Some(v));
    assert_eq!(parse_token("nope"), None);
    let a = new_token();
    let b = new_token();
    assert_ne!(a, b);
    assert_eq!(parse_token(&token_text(a)), Some(a));
}

#[test]
fn trimming_follows_std() {
    for s in ["  a b  ", "\u{3000}x\u{85}", "\t\n", "", "x", "\u{a0}y\u{200b}"] {
        let t: String = trim_str(s).into_iter().collect();
        assert_eq!(t, s.trim());
    }
    assert!(same_text("abc", "abc"));
    assert!(!same_text("abc", "abd"));
}

#[test]
fn waiting_for_the_database() {
    assert!(matches!(db_wait_step(1, true), DbWait::Ready));
    assert!(matches!(db_wait_step(29, false), DbWait::Retry));
    assert!(matches!(db_wait_step(30, false), DbWait::GiveUp));
}

#[test]
fn identifier_bytes_in_stored_order() {
    let v: u128 = 0x550e8400_e29b_41d4_a716_446655440000;
    assert_eq!(token_byte_at(v, 0), 0x55);
    assert_eq!(token_byte_at(v, 1), 0x0e);
    assert_eq!(token_byte_at(v, 15), 0x00);
    assert_eq!(token_byte_at(v, 14), 0x00);
    assert_eq!(token_byte_at(v, 10), 0x44);
}

#[test]
fn new_tokens_are_version_four_uuids() {
    for _ in 0..20 {
        let t = new_token();
        assert_eq!((t >> 76) & 0xf, 4);
        assert_eq!((t >> 62) & 0x3, 2);
        assert_eq!(token_text(t).chars().nth(14), Some('4'));
    }
}
