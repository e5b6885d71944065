use sosial_video::accounts::{
    authenticate, authorization_value, bearer_token, client_ip, contact_view, current_user,
    hash_password, is_online, presence_ip, session_expires_at, session_state, test_users,
    validate_login, AccountRow, SessionRow, SessionState, ONLINE_WINDOW_NANOS, SESSION_TTL_NANOS,
};
use sosial_video::api::{error, internal};

const SEC: i128 = 1_000_000_000;

#[test]
fn test_users_are_the_documented_five() {
    let users = test_users();
    let expected = [
        ("alice", "alice123"),
        ("bob", "bob123"),
        ("carol", "carol123"),
        ("dave", "dave123"),
        ("eve", "eve123"),
    ];
    assert_eq!(users.len(), 5);
    for (got, want) in users.iter().zip(expected.iter()) {
        assert_eq!(got.0, want.0);
        assert_eq!(got.1, want.1);
    }
}

#[test]
fn error_and_internal_answers() {
    let e = error(404, "user not found");
    assert_eq!(e.status, 404);
    assert_eq!(e.body.error, "user not found");
    let i = internal("database is down");
    assert_eq!(i.status, 500);
    assert_eq!(i.body.error, "internal error");
}

#[test]
fn login_form_is_trimmed_and_required() {
    assert_eq!(validate_login("  alice ", "pw").ok().unwrap(), "alice");
    let e = validate_login("   ", "pw").err().unwrap();
    assert_eq!((e.status, e.body.error.as_str()), (400, "username and password required"));
    let e = validate_login("alice", "").err().unwrap();
    assert_eq!((e.status, e.body.error.as_str()), (400, "username and password required"));
}

#[test]
fn stored_password_signs_in_and_others_do_not() {
    let hash = hash_password("alice123").ok().unwrap();
    let row = |status: &str| {
        Some(AccountRow { id: 7, password_hash: hash.clone(), status: status.to_string() })
    };
    assert_eq!(authenticate(row("active"), "alice123").ok(), Some(7));
    let e = authenticate(row("active"), "alice124").err().unwrap();
    assert_eq!((e.status, e.body.error.as_str()), (401, "invalid credentials"));
    let e = authenticate(row("pending"), "alice123").err().unwrap();
    assert_eq!((e.status, e.body.error.as_str()), (403, "account is not active"));
}

#[test]
fn unknown_account_and_broken_hash() {
    let e = authenticate(None, "x").err().unwrap();
    assert_eq!((e.status, e.body.error.as_str()), (401, "invalid credentials"));
    let broken = Some(AccountRow {
        id: 1,
        password_hash: "not a hash".to_string(),
        status: "active".to_string(),
    });
    let e = authenticate(broken, "x").err().unwrap();
    assert_eq!((e.status, e.body.error.as_str()), (500, "internal error"));
}

#[test]
fn bearer_header_is_read() {
    let v: u128 = 0x550e8400_e29b_41d4_a716_446655440000;
    let ok = bearer_token(Some("Bearer 550e8400-e29b-41d4-a716-446655440000"));
    assert_eq!(ok.ok(), Some(v));
    let e = bearer_token(None).err().unwrap();
    assert_eq!((e.status, e.body.error.as_str()), (401, "missing authorization"));
    let e = bearer_token(Some("Basic abc")).err().unwrap();
    assert_eq!((e.status, e.body.error.as_str()), (401, "invalid authorization"));
    let e = bearer_token(Some("Bearer not-a-uuid")).err().unwrap();
    assert_eq!((e.status, e.body.error.as_str()), (401, "invalid token"));
}

#[test]
fn issued_token_round_trips_through_header() {
    let v: u128 = 0x0123_4567_89ab_cdef_0011_2233_4455_6677;
    let header = authorization_value(v);
    assert_eq!(header, "Bearer 01234567-89ab-cdef-0011-223344556677");
    assert_eq!(bearer_token(Some(header.as_str())).ok(), Some(v));
}

#[test]
fn sessions_expire() {
    let row = |expires_at| Some(SessionRow { user_id: 3, username: "bob".into(), expires_at });
    let u = current_user(row(100 * SEC), 100 * SEC).ok().unwrap();
    assert_eq!((u.id, u.username.as_str()), (3, "bob"));
    let e = current_user(row(100 * SEC), 100 * SEC + 1).err().unwrap();
    assert_eq!((e.status, e.body.error.as_str()), (401, "session expired"));
    assert!(matches!(session_state(&row(1), 2), SessionState::Expired));
    assert!(matches!(session_state(&row(2), 2), SessionState::Active));
    assert!(matches!(session_state(&None, 2), SessionState::Unknown));
    let e = current_user(None, 0).err().unwrap();
    assert_eq!((e.status, e.body.error.as_str()), (401, "invalid session"));
}

#[test]
fn session_lasts_seven_days() {
    assert_eq!(SESSION_TTL_NANOS, 7 * 24 * 60 * 60 * SEC);
    assert_eq!(session_expires_at(5), 5 + SESSION_TTL_NANOS);
}

#[test]
fn client_address_prefers_forwarded() {
    assert_eq!(client_ip(Some(" 10.0.0.1 , 10.0.0.2"), "127.0.0.1"), "10.0.0.1");
    assert_eq!(client_ip(Some("  , 10.0.0.2"), "127.0.0.1"), "127.0.0.1");
    assert_eq!(client_ip(None, "127.0.0.1"), "127.0.0.1");
}

#[test]
fn presence_address_keeps_given_unless_blank() {
    assert_eq!(presence_ip(Some(" 1.2.3.4".into()), "9.9.9.9".into()), " 1.2.3.4");
    assert_eq!(presence_ip(Some("   ".into()), "9.9.9.9".into()), "9.9.9.9");
    assert_eq!(presence_ip(None, "9.9.9.9".into()), "9.9.9.9");
}

#[test]
fn online_within_ninety_seconds() {
    let now = 1_000 * SEC;
    assert_eq!(ONLINE_WINDOW_NANOS, 90 * SEC);
    assert!(is_online(Some(now - 90 * SEC), now));
    assert!(!is_online(Some(now - 90 * SEC - 1), now));
    assert!(!is_online(Some(now + 1), now));
    assert!(!is_online(None, now));
    assert!(is_online(Some(i128::MAX - 5), i128::MAX));
}

#[test]
fn contact_entry() {
    let c = contact_view(4, "dave".into(), Some("1.1.1.1".into()), Some(5000), Some(0), 10 * SEC);
    assert_eq!(c.last_seen.as_deref(), Some("1970-01-01T00:00:00+00:00"));
    assert!(c.online);
    let c = contact_view(4, "dave".into(), None, None, None, 10 * SEC);
    assert!(c.last_seen.is_none());
    assert!(!c.online);
}
