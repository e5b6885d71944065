use sosial_video::api::ApiError;
use sosial_video::auth::{
    activation_answer, activation_step, check_password, code_from_token, confirmation_code,
    confirmation_email, confirmation_expires_at, confirmation_link, normalize_code,
    normalize_email, normalize_username, public_app_url, registration_target, verify_redirect,
    Activation, ExistingUser, RegisterResponse, VerificationRow, VerifyResponse,
    CONFIRM_TTL_NANOS,
};

fn err_of<T>(r: Result<T, ApiError>) -> (u16, String) {
    match r {
        Ok(_) => panic!("expected an error"),
        Err(e) => (e.status, e.body.error),
    }
}

#[test]
fn usernames() {
    assert_eq!(normalize_username("  alice ").ok().unwrap(), "alice");
    assert_eq!(normalize_username("Ab_c-1").ok().unwrap(), "Ab_c-1");
    let short = err_of(normalize_username(" ab "));
    assert_eq!(short, (400, "username must be between 3 and 32 characters".to_string()));
    let long = err_of(normalize_username(&"a".repeat(33)));
    assert_eq!(long.0, 400);
    assert_eq!(normalize_username(&"a".repeat(32)).ok().unwrap().len(), 32);
    let digit_first = err_of(normalize_username("1abc"));
    assert_eq!(
        digit_first,
        (
            400,
            "username must start with a letter and may contain letters, numbers, _ and -"
                .to_string()
        )
    );
    assert_eq!(err_of(normalize_username("ab cd")).0, 400);
    // 17 two-byte letters are 34 bytes: too long although 17 characters.
    let accented = err_of(normalize_username(&"\u{e9}".repeat(17)));
    assert_eq!(accented.1, "username must be between 3 and 32 characters");
}

#[test]
fn emails() {
    assert_eq!(normalize_email(" Alice@Example.COM ").ok().unwrap(), "alice@example.com");
    for bad in ["a@b", "@b.c", "a@.b", "a@b.", "no-at.example", "a b@c.d", "a@b c.d"] {
        assert_eq!(err_of(normalize_email(bad)), (400, "a valid email is required".to_string()));
    }
    let long_local = format!("{}@example.com", "x".repeat(250));
    assert_eq!(err_of(normalize_email(&long_local)).0, 400);
    assert_eq!(normalize_email("a@b@c.d").ok().unwrap(), "a@b@c.d");
}

#[test]
fn passwords() {
    assert!(check_password("12345678").is_ok());
    assert!(check_password(&"x".repeat(128)).is_ok());
    let e = err_of(check_password("1234567"));
    assert_eq!(e, (400, "password must be between 8 and 128 characters".to_string()));
    assert_eq!(err_of(check_password(&"x".repeat(129))).0, 400);
}

fn user(id: i32, status: &str) -> Option<ExistingUser> {
    Some(ExistingUser { id, status: status.to_string() })
}

#[test]
fn registration_targets() {
    assert_eq!(registration_target(&None, &None).ok().unwrap(), None);
    assert_eq!(registration_target(&user(4, "pending"), &None).ok().unwrap(), Some(4));
    assert_eq!(registration_target(&None, &user(5, "expired")).ok().unwrap(), Some(5));
    assert_eq!(registration_target(&user(6, "pending"), &user(6, "pending")).ok().unwrap(), Some(6));
    let taken = (409, "username or email already in use".to_string());
    assert_eq!(err_of(registration_target(&user(6, "pending"), &user(7, "pending"))), taken);
    assert_eq!(err_of(registration_target(&user(6, "active"), &None)), taken);
    assert_eq!(err_of(registration_target(&None, &user(8, "active"))), taken);
}

#[test]
fn confirmation_codes() {
    assert_eq!(code_from_token(0), "AAAAAAAA");
    assert_eq!(code_from_token(0x0001_0203_0405_0607_0809_0a0b_0c0d_0e0f), "ABCDEFGH");
    assert_eq!(code_from_token(0x1f1e_1d1c_1b1a_1918_0000_0000_0000_0000), "98765432");
    assert_eq!(code_from_token(0x2000_0000_0000_0000_0000_0000_0000_0000), "AAAAAAAA");
    let c = confirmation_code();
    assert_eq!(c.len(), 8);
    assert!(c.chars().all(|ch| "ABCDEFGHJKLMNPQRSTUVWXYZ23456789".contains(ch)));
}

#[test]
fn typed_codes() {
    assert_eq!(normalize_code(Some("  ab3d ")), Some("AB3D".to_string()));
    assert_eq!(normalize_code(Some("   ")), None);
    assert_eq!(normalize_code(None), None);
}

#[test]
fn app_urls_and_links() {
    assert_eq!(public_app_url(Some(" https://x.org// "), "http://y/"), "https://x.org");
    assert_eq!(public_app_url(Some("  "), "http://y/"), "http://y");
    assert_eq!(public_app_url(None, "http://y"), "http://y");
    let link = confirmation_link("https://x.org", 0x550e8400_e29b_41d4_a716_446655440000);
    assert_eq!(link, "https://x.org/?verify=550e8400-e29b-41d4-a716-446655440000");
    assert_eq!(confirmation_expires_at(1), 1 + CONFIRM_TTL_NANOS);
    assert_eq!(CONFIRM_TTL_NANOS, 86_400_000_000_000);
}

#[test]
fn confirmation_mail() {
    let m = confirmation_email("alice", "https://x/?verify=1", "ABCD2345");
    assert_eq!(m.subject, "Confirm your Sosial Video account");
    assert_eq!(
        m.body,
        "Hello alice,\n\nConfirm your Sosial Video account within 1 day by opening this link:\n\nhttps://x/?verify=1\n\nConfirmation code: ABCD2345\n\nIf you did not create this account, you can ignore this email.\nAfter 1 day the request expires and you will not be able to sign in.\n"
    );
}

#[test]
fn response_messages() {
    assert_eq!(
        RegisterResponse::check_email().message,
        "Check your email and click the confirmation link within 1 day to activate your account."
    );
    assert_eq!(VerifyResponse::confirmed().message, "Account confirmed. You can sign in.");
}

fn row(status: &str, used: bool, expires_at: i128) -> Option<VerificationRow> {
    Some(VerificationRow { token: 9, user_id: 2, expires_at, used, status: status.to_string() })
}

#[test]
fn activation_steps() {
    assert!(matches!(activation_step(false, &None, 0), Activation::Missing));
    assert!(matches!(activation_step(true, &None, 0), Activation::NotFound));
    assert!(matches!(activation_step(true, &row("active", true, 0), 10), Activation::AlreadyActive));
    assert!(matches!(activation_step(true, &row("pending", true, 100), 10), Activation::AlreadyUsed));
    assert!(matches!(
        activation_step(true, &row("pending", false, 5), 10),
        Activation::Expired { user_id: 2 }
    ));
    assert!(matches!(
        activation_step(true, &row("pending", false, 10), 10),
        Activation::Activate { user_id: 2, token: 9 }
    ));
}

#[test]
fn activation_answers() {
    let e = err_of(activation_answer(&Activation::Missing));
    assert_eq!(e, (400, "confirmation token or code required".to_string()));
    let e = err_of(activation_answer(&Activation::NotFound));
    assert_eq!(e, (400, "invalid confirmation link or code".to_string()));
    let e = err_of(activation_answer(&Activation::AlreadyUsed));
    assert_eq!(e, (400, "this confirmation link was already used".to_string()));
    let e = err_of(activation_answer(&Activation::Expired { user_id: 1 }));
    assert_eq!(e, (410, "this sign-up expired. Register a new account.".to_string()));
    assert!(activation_answer(&Activation::AlreadyActive).is_ok());
    assert!(activation_answer(&Activation::Activate { user_id: 1, token: 2 }).is_ok());
}

#[test]
fn confirmation_link_destinations() {
    assert_eq!(verify_redirect("https://x/", &Ok(())), "https://x/?verified=1");
    let expired = activation_answer(&Activation::Expired { user_id: 1 });
    assert_eq!(verify_redirect("https://x", &expired), "https://x/?verify_error=expired");
    let used = activation_answer(&Activation::AlreadyUsed);
    assert_eq!(verify_redirect("https://x//", &used), "https://x/?verify_error=invalid");
}
