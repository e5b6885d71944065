//! Sign-up: account names, addresses and passwords, the confirmation link
//! and code, and what confirming an account does.

use vstd::prelude::*;
use crate::api::{
    error, outcome, text_outcome, ApiError, BAD_REQUEST, CONFLICT, GONE,
};
use crate::ids::{hyphenated, token_byte, token_byte_at, token_text, new_token};
use crate::text::{
    byte_len, chars_contain, chars_of, concat_chars, copy_range, has_infix, is_ascii_digit,
    is_ascii_letter, is_white_space, lemma_byte_len_ascii, lemma_take_until_prefix,
    lemma_trim_no_edge_space, lowercase_chars, lowercase_text, same_text, str_byte_len,
    str_to_uppercase, string_from_chars, take_until, text_byte_len, trim, trim_chars,
    trim_end_char, trim_end_matching, trim_str, uppercase_text, char_is_whitespace,
    contains_char,
};

verus! {

/// A sign-up form.
pub struct RegisterRequest {
    pub username: String,
    pub email: String,
    pub password: String,
    pub locale: Option<String>,
}

/// The answer to a sign-up.
pub struct RegisterResponse {
    pub message: String,
}

/// A confirmation: by the link's token or by the code from the email.
pub struct VerifyRequest {
    pub token: Option<u128>,
    pub code: Option<String>,
}

/// The answer to a confirmation.
pub struct VerifyResponse {
    pub message: String,
}

impl RegisterResponse {
    /// The answer to an accepted sign-up.
    pub fn check_email() -> (r: RegisterResponse)
        ensures
            r.message@
                == "Check your email and click the confirmation link within 1 day to activate your account."@,
    {
        RegisterResponse {
            message: "Check your email and click the confirmation link within 1 day to activate your account.".to_owned(),
        }
    }
}

impl VerifyResponse {
    /// The answer to an accepted confirmation.
    pub fn confirmed() -> (r: VerifyResponse)
        ensures
            r.message@ == "Account confirmed. You can sign in."@,
    {
        VerifyResponse { message: "Account confirmed. You can sign in.".to_owned() }
    }
}

/// How long a confirmation link stays valid: one day, in nanoseconds.
pub const CONFIRM_TTL_NANOS: i128 = 86_400_000_000_000;

pub const USERNAME_MIN: usize = 3;
pub const USERNAME_MAX: usize = 32;
pub const PASSWORD_MIN: usize = 8;
pub const PASSWORD_MAX: usize = 128;
pub const EMAIL_MAX: usize = 254;

/// Whether `c` may stand at position `i` of a username.
pub open spec fn username_char_ok(c: char, i: int) -> bool {
    is_ascii_letter(c) || (i > 0 && (is_ascii_digit(c) || c == '_' || c == '-'))
}

/// A username starts with a letter and holds only letters, digits, `_` and `-`.
pub open spec fn username_chars_ok(u: Seq<char>) -> bool {
    forall|i: int| 0 <= i < u.len() ==> username_char_ok(#[trigger] u[i], i)
}

/// The username a sign-up asks for: the trimmed text, between 3 and 32
/// bytes, starting with a letter, with letters, digits, `_` and `-` only.
pub open spec fn username_rule(raw: Seq<char>) -> Result<Seq<char>, (u16, Seq<char>)> {
    let u = trim(raw);
    if byte_len(u) < USERNAME_MIN || byte_len(u) > USERNAME_MAX {
        Err((BAD_REQUEST, "username must be between 3 and 32 characters"@))
    } else if !username_chars_ok(u) {
        Err(
            (
                BAD_REQUEST,
                "username must start with a letter and may contain letters, numbers, _ and -"@,
            ),
        )
    } else {
        Ok(u)
    }
}

/// Checks and trims the username of a sign-up.
#[verifier::loop_isolation(false)]
pub fn normalize_username(raw: &str) -> (r: Result<String, ApiError>)
    ensures
        text_outcome(r) == username_rule(raw@),
{
    let u = trim_str(raw);
    let n = text_byte_len(&u);
    if n < USERNAME_MIN || n > USERNAME_MAX {
        return Err(error(BAD_REQUEST, "username must be between 3 and 32 characters"));
    }
    let mut i: usize = 0;
    while i < u.len()
        invariant
            i <= u.len(),
            forall|k: int| 0 <= k < i ==> username_char_ok(#[trigger] u@[k], k),
        decreases u.len() - i,
    {
        let c = u[i];
        let ok = ('a' <= c && c <= 'z') || ('A' <= c && c <= 'Z') || (i > 0 && (('0' <= c && c
            <= '9') || c == '_' || c == '-'));
        if !ok {
            assert(!username_char_ok(u@[i as int], i as int));
            return Err(
                error(
                    BAD_REQUEST,
                    "username must start with a letter and may contain letters, numbers, _ and -",
                ),
            );
        }
        i = i + 1;
    }
    Ok(string_from_chars(u.as_slice()))
}

/// An accepted username is 3 to 32 ASCII characters, and accepting it again
/// gives it back unchanged.
pub proof fn law_username_is_stable(raw: Seq<char>)
    requires
        username_rule(raw) is Ok,
    ensures
        ({
            let u = username_rule(raw)->Ok_0;
            &&& 3 <= u.len() <= 32
            &&& forall|i: int| 0 <= i < u.len() ==> (#[trigger] u[i] as u32) < 0x80
            &&& username_rule(u) == Ok::<Seq<char>, (u16, Seq<char>)>(u)
        }),
{
    let u = trim(raw);
    assert forall|i: int| 0 <= i < u.len() implies (#[trigger] u[i] as u32) < 0x80 by {
        assert(username_char_ok(u[i], i));
    }
    lemma_byte_len_ascii(u);
    if u.len() > 0 {
        assert(username_char_ok(u[0], 0));
        assert(username_char_ok(u[u.len() - 1], u.len() - 1));
    }
    lemma_trim_no_edge_space(u);
}

/// Stops at `@`.
pub open spec fn at_stop() -> spec_fn(char) -> bool {
    |c: char| c == '@'
}

/// Whether the lowercased, trimmed text `e` passes as an email address: one
/// `@` splits it into a non-empty local part and a domain that holds a dot
/// but neither starts nor ends with one; at most 254 bytes; no white space.
pub open spec fn email_ok(e: Seq<char>) -> bool {
    let local = take_until(e, at_stop());
    let domain = e.skip(local.len() + 1int);
    &&& local.len() < e.len()
    &&& local.len() > 0
    &&& domain.contains('.')
    &&& domain[0] != '.'
    &&& domain.last() != '.'
    &&& byte_len(e) <= EMAIL_MAX
    &&& forall|i: int| 0 <= i < e.len() ==> !is_white_space(#[trigger] e[i])
}

/// The address a sign-up gives: trimmed and lowercased, then checked.
pub open spec fn email_rule(raw: Seq<char>) -> Result<Seq<char>, (u16, Seq<char>)> {
    let e = lowercase_text(trim(raw));
    if email_ok(e) {
        Ok(e)
    } else {
        Err((BAD_REQUEST, "a valid email is required"@))
    }
}

/// Checks, trims and lowercases the address of a sign-up.
#[verifier::loop_isolation(false)]
pub fn normalize_email(raw: &str) -> (r: Result<String, ApiError>)
    ensures
        text_outcome(r) == email_rule(raw@),
{
    let t = trim_str(raw);
    let e = lowercase_chars(&t);
    let ghost local = take_until(e@, at_stop());
    let mut at: usize = 0;
    while at < e.len() && e[at] != '@'
        invariant
            at <= e.len(),
            forall|k: int| 0 <= k < at ==> !(at_stop())(#[trigger] e@[k]),
        decreases e.len() - at,
    {
        at = at + 1;
    }
    proof {
        lemma_take_until_prefix(e@, at_stop(), at as int);
    }
    if at == e.len() || at == 0 {
        return Err(error(BAD_REQUEST, "a valid email is required"));
    }
    let domain = copy_range(&e, at + 1, e.len());
    assert(domain@ =~= e@.skip(local.len() + 1int));
    if !contains_char(&domain, '.') || domain[0] == '.' || domain[domain.len() - 1] == '.' {
        return Err(error(BAD_REQUEST, "a valid email is required"));
    }
    if text_byte_len(&e) > EMAIL_MAX {
        return Err(error(BAD_REQUEST, "a valid email is required"));
    }
    let mut i: usize = 0;
    while i < e.len()
        invariant
            i <= e.len(),
            forall|k: int| 0 <= k < i ==> !is_white_space(#[trigger] e@[k]),
        decreases e.len() - i,
    {
        if char_is_whitespace(e[i]) {
            assert(is_white_space(e@[i as int]));
            return Err(error(BAD_REQUEST, "a valid email is required"));
        }
        i = i + 1;
    }
    Ok(string_from_chars(e.as_slice()))
}

/// A sign-up address is accepted when, trimmed and lowercased, it has at
/// most 254 bytes and no white space, a non-empty part before its first
/// `@`, and after that `@` a domain that holds a `.` but neither starts nor
/// ends with one; nothing else is asked of its characters, and it is stored
/// trimmed and lowercased.
pub proof fn law_well_formed_emails_are_accepted(raw: Seq<char>, at: int)
    requires
        ({
            let e = lowercase_text(trim(raw));
            let domain = e.subrange(at + 1, e.len() as int);
            &&& 0 < at < e.len()
            &&& e[at] == '@'
            &&& forall|k: int| 0 <= k < at ==> #[trigger] e[k] != '@'
            &&& domain.contains('.')
            &&& domain[0] != '.'
            &&& domain.last() != '.'
            &&& byte_len(e) <= EMAIL_MAX
            &&& forall|k: int| 0 <= k < e.len() ==> !is_white_space(#[trigger] e[k])
        }),
    ensures
        email_rule(raw) == Ok::<Seq<char>, (u16, Seq<char>)>(lowercase_text(trim(raw))),
{
    let e = lowercase_text(trim(raw));
    lemma_take_until_prefix(e, at_stop(), at);
    let local = take_until(e, at_stop());
    assert(local.len() == at);
    assert(e.skip(local.len() + 1int) =~= e.subrange(at + 1, e.len() as int));
}

/// The password a sign-up sets: between 8 and 128 bytes.
pub open spec fn password_rule(password: Seq<char>) -> Result<(), (u16, Seq<char>)> {
    if byte_len(password) < PASSWORD_MIN || byte_len(password) > PASSWORD_MAX {
        Err((BAD_REQUEST, "password must be between 8 and 128 characters"@))
    } else {
        Ok(())
    }
}

/// Checks the length of the password of a sign-up.
pub fn check_password(password: &str) -> (r: Result<(), ApiError>)
    ensures
        outcome(r) == password_rule(password@),
{
    let n = str_byte_len(password);
    if n < PASSWORD_MIN || n > PASSWORD_MAX {
        Err(error(BAD_REQUEST, "password must be between 8 and 128 characters"))
    } else {
        Ok(())
    }
}

/// An account found under the requested username or email.
pub struct ExistingUser {
    pub id: i32,
    pub status: String,
}

/// An account found for a sign-up can be taken over only while it is not
/// active.
pub open spec fn reuse_rule(row: ExistingUser) -> Result<Option<i32>, (u16, Seq<char>)> {
    if row.status@ == "active"@ {
        Err((CONFLICT, "username or email already in use"@))
    } else {
        Ok(Some(row.id))
    }
}

/// Which account a sign-up writes: `Ok(None)` a new one, `Ok(Some(id))` the
/// unconfirmed account `id` found under the username or the email.
pub open spec fn registration_rule(by_name: Option<ExistingUser>, by_email: Option<ExistingUser>) -> Result<
    Option<i32>,
    (u16, Seq<char>),
> {
    match (by_name, by_email) {
        (Some(n), Some(e)) => if n.id != e.id {
            Err((CONFLICT, "username or email already in use"@))
        } else {
            reuse_rule(n)
        },
        (Some(r), None) => reuse_rule(r),
        (None, Some(r)) => reuse_rule(r),
        (None, None) => Ok(None),
    }
}

fn reuse_pending_user(row: &ExistingUser) -> (r: Result<Option<i32>, ApiError>)
    ensures
        outcome(r) == reuse_rule(*row),
{
    if same_text(row.status.as_str(), "active") {
        Err(error(CONFLICT, "username or email already in use"))
    } else {
        Ok(Some(row.id))
    }
}

/// Decides which account a sign-up writes, from the accounts found under the
/// requested username and under the requested email.
pub fn registration_target(by_name: &Option<ExistingUser>, by_email: &Option<ExistingUser>) -> (r:
    Result<Option<i32>, ApiError>)
    ensures
        outcome(r) == registration_rule(*by_name, *by_email),
{
    match (by_name, by_email) {
        (Some(n), Some(e)) => {
            if n.id != e.id {
                Err(error(CONFLICT, "username or email already in use"))
            } else {
                reuse_pending_user(n)
            }
        },
        (Some(row), None) => reuse_pending_user(row),
        (None, Some(row)) => reuse_pending_user(row),
        (None, None) => Ok(None),
    }
}

/// A sign-up never takes over an active account: where one is found under
/// the username or the email, the sign-up is refused.
pub proof fn law_active_account_is_never_taken_over(
    by_name: Option<ExistingUser>,
    by_email: Option<ExistingUser>,
)
    requires
        (by_name matches Some(n) && n.status@ == "active"@) || (by_email matches Some(e)
            && e.status@ == "active"@),
        by_name matches Some(n) ==> by_email matches Some(e) ==> n.id == e.id ==> n.status@
            == e.status@,
    ensures
        registration_rule(by_name, by_email) == Err::<Option<i32>, (u16, Seq<char>)>(
            (CONFLICT, "username or email already in use"@),
        ),
{
}

/// The characters of a confirmation code: no `I`, `O`, `0` or `1`.
pub open spec fn code_alphabet() -> Seq<char> {
    seq![
        'A', 'B', 'C', 'D', 'E', 'F', 'G', 'H', 'J', 'K', 'L', 'M', 'N', 'P', 'Q', 'R', 'S', 'T',
        'U', 'V', 'W', 'X', 'Y', 'Z', '2', '3', '4', '5', '6', '7', '8', '9',
    ]
}

/// The confirmation code drawn from the random identifier `v`: its first
/// eight bytes, each taken modulo 32 into the code alphabet.
pub open spec fn code_of(v: u128) -> Seq<char> {
    Seq::new(8, |i: int| code_alphabet()[(token_byte(v, i) % 32) as int])
}

fn code_char(k: u8) -> (r: char)
    requires
        k < 32,
    ensures
        r == code_alphabet()[k as int],
{
    let alphabet: [char; 32] = [
        'A', 'B', 'C', 'D', 'E', 'F', 'G', 'H', 'J', 'K', 'L', 'M', 'N', 'P', 'Q', 'R', 'S', 'T',
        'U', 'V', 'W', 'X', 'Y', 'Z', '2', '3', '4', '5', '6', '7', '8', '9',
    ];
    assert(alphabet@ =~= code_alphabet());
    alphabet[k as usize]
}

/// The confirmation code drawn from the identifier `v`.
pub fn code_from_token(v: u128) -> (r: String)
    ensures
        r@ == code_of(v),
{
    let mut cs: Vec<char> = Vec::new();
    let mut i: u32 = 0;
    while i < 8
        invariant
            i <= 8,
            cs@.len() == i,
            forall|k: int| 0 <= k < i ==> #[trigger] cs@[k] == code_of(v)[k],
        decreases 8 - i,
    {
        let b = token_byte_at(v, i);
        cs.push(code_char(b % 32));
        i = i + 1;
    }
    assert(cs@ =~= code_of(v));
    string_from_chars(cs.as_slice())
}

/// A fresh random confirmation code.
pub fn confirmation_code() -> (r: String)
    ensures
        exists|v: u128| r@ == code_of(v),
{
    let v = new_token();
    code_from_token(v)
}

/// A confirmation code is eight characters, none of them `I`, `O`, `0` or `1`.
pub proof fn law_code_is_unambiguous(v: u128)
    ensures
        code_of(v).len() == 8,
        forall|i: int|
            0 <= i < 8 ==> #[trigger] code_of(v)[i] != 'I' && code_of(v)[i] != 'O' && code_of(
                v,
            )[i] != '0' && code_of(v)[i] != '1',
{
    assert forall|i: int| 0 <= i < 8 implies #[trigger] code_of(v)[i] != 'I' && code_of(v)[i]
        != 'O' && code_of(v)[i] != '0' && code_of(v)[i] != '1' by {
        let k = (token_byte(v, i) % 32) as int;
        assert(0 <= k < 32);
        assert(code_of(v)[i] == code_alphabet()[k]);
    }
}

/// The code typed into the confirmation form: trimmed and uppercased, or
/// none where it is blank.
pub open spec fn typed_code(code: Option<Seq<char>>) -> Option<Seq<char>> {
    match code {
        Some(c) => if trim(c).len() > 0 {
            Some(uppercase_text(trim(c)))
        } else {
            None
        },
        None => None,
    }
}

/// Reads the code typed into the confirmation form.
pub fn normalize_code(code: Option<&str>) -> (r: Option<String>)
    ensures
        match r {
            Some(s) => typed_code(
                match code {
                    Some(c) => Some(c@),
                    None => None,
                },
            ) == Some(s@),
            None => typed_code(
                match code {
                    Some(c) => Some(c@),
                    None => None,
                },
            ) is None,
        },
{
    match code {
        None => None,
        Some(c) => {
            let t = trim_str(c);
            if t.len() == 0 {
                None
            } else {
                let ts = string_from_chars(t.as_slice());
                Some(str_to_uppercase(ts.as_str()))
            }
        },
    }
}

/// The address of the web application for links: the request's `Origin`
/// where it is not blank, else the configured address; without trailing `/`.
pub open spec fn app_address(origin: Option<Seq<char>>, fallback: Seq<char>) -> Seq<char> {
    match origin {
        Some(o) => if trim(o).len() > 0 {
            trim_end_char(trim(o), '/')
        } else {
            trim_end_char(fallback, '/')
        },
        None => trim_end_char(fallback, '/'),
    }
}

/// The address of the web application, for the confirmation link.
pub fn public_app_url(origin: Option<&str>, fallback: &str) -> (r: String)
    ensures
        r@ == app_address(
            match origin {
                Some(o) => Some(o@),
                None => None,
            },
            fallback@,
        ),
{
    match origin {
        Some(o) => {
            let t = trim_str(o);
            if t.len() > 0 {
                let u = trim_end_matching(&t, '/');
                return string_from_chars(u.as_slice());
            }
        },
        None => {},
    }
    let f = chars_of(fallback);
    let u = trim_end_matching(&f, '/');
    string_from_chars(u.as_slice())
}

/// The confirmation link sent for the token `token`.
pub fn confirmation_link(app_url: &str, token: u128) -> (r: String)
    ensures
        r@ == app_url@ + "/?verify="@ + hyphenated(token),
{
    let a = chars_of(app_url);
    let m = chars_of("/?verify=");
    let t = token_text(token);
    let tc = chars_of(t.as_str());
    let am = concat_chars(&a, &m);
    let all = concat_chars(&am, &tc);
    string_from_chars(all.as_slice())
}

/// When a confirmation link made at `now` stops being valid.
pub fn confirmation_expires_at(now: i128) -> (r: i128)
    requires
        now <= i128::MAX - CONFIRM_TTL_NANOS,
    ensures
        r == now + CONFIRM_TTL_NANOS,
{
    now + CONFIRM_TTL_NANOS
}

/// The confirmation email.
pub struct ConfirmationEmail {
    pub subject: String,
    pub body: String,
}

fn append_text(a: &Vec<char>, s: &str) -> (r: Vec<char>)
    ensures
        r@ == a@ + s@,
{
    let b = chars_of(s);
    concat_chars(a, &b)
}

/// The confirmation email for `username`, with the link and the code.
pub fn confirmation_email(username: &str, confirm_url: &str, code: &str) -> (r: ConfirmationEmail)
    ensures
        r.subject@ == "Confirm your Sosial Video account"@,
        r.body@ == "Hello "@ + username@ + ",\n\nConfirm your Sosial Video account within 1 day by opening this link:\n\n"@
            + confirm_url@ + "\n\nConfirmation code: "@ + code@
            + "\n\nIf you did not create this account, you can ignore this email.\nAfter 1 day the request expires and you will not be able to sign in.\n"@,
{
    let b0: Vec<char> = Vec::new();
    let b1 = append_text(&b0, "Hello ");
    let b2 = append_text(&b1, username);
    let b3 = append_text(
        &b2,
        ",\n\nConfirm your Sosial Video account within 1 day by opening this link:\n\n",
    );
    let b4 = append_text(&b3, confirm_url);
    let b5 = append_text(&b4, "\n\nConfirmation code: ");
    let b6 = append_text(&b5, code);
    let b7 = append_text(
        &b6,
        "\n\nIf you did not create this account, you can ignore this email.\nAfter 1 day the request expires and you will not be able to sign in.\n",
    );
    assert(b1@ =~= "Hello "@);
    ConfirmationEmail {
        subject: "Confirm your Sosial Video account".to_owned(),
        body: string_from_chars(b7.as_slice()),
    }
}


/// The confirmation found for a link or code, with its account's status.
pub struct VerificationRow {
    pub token: u128,
    pub user_id: i32,
    pub expires_at: i128,
    pub used: bool,
    pub status: String,
}

/// What confirming an account comes to.
pub enum Activation {
    /// Neither a token nor a code was given.
    Missing,
    /// No confirmation matches the token or code.
    NotFound,
    /// The account is active already: nothing to do.
    AlreadyActive,
    /// The confirmation was used before.
    AlreadyUsed,
    /// The confirmation expired: the pending account is marked expired.
    Expired { user_id: i32 },
    /// The account becomes active and the confirmation is marked used.
    Activate { user_id: i32, token: u128 },
}

/// What confirming with `row` (found for the given token or code) comes to at
/// `now`; `given` is whether a token or a code was given at all.
pub open spec fn activation_at(given: bool, row: Option<VerificationRow>, now: i128) -> Activation {
    if !given {
        Activation::Missing
    } else {
        match row {
            None => Activation::NotFound,
            Some(v) => if v.status@ == "active"@ {
                Activation::AlreadyActive
            } else if v.used {
                Activation::AlreadyUsed
            } else if v.expires_at < now {
                Activation::Expired { user_id: v.user_id }
            } else {
                Activation::Activate { user_id: v.user_id, token: v.token }
            },
        }
    }
}

/// Decides what confirming with `row` comes to at `now`.
pub fn activation_step(given: bool, row: &Option<VerificationRow>, now: i128) -> (r: Activation)
    ensures
        r == activation_at(given, *row, now),
{
    if !given {
        return Activation::Missing;
    }
    match row {
        None => Activation::NotFound,
        Some(v) => {
            if same_text(v.status.as_str(), "active") {
                Activation::AlreadyActive
            } else if v.used {
                Activation::AlreadyUsed
            } else if v.expires_at < now {
                Activation::Expired { user_id: v.user_id }
            } else {
                Activation::Activate { user_id: v.user_id, token: v.token }
            }
        },
    }
}

/// What a confirmation is answered, once its step is carried out.
pub open spec fn activation_answer_of(a: Activation) -> Result<(), (u16, Seq<char>)> {
    match a {
        Activation::Missing => Err((BAD_REQUEST, "confirmation token or code required"@)),
        Activation::NotFound => Err((BAD_REQUEST, "invalid confirmation link or code"@)),
        Activation::AlreadyActive => Ok(()),
        Activation::AlreadyUsed => Err((BAD_REQUEST, "this confirmation link was already used"@)),
        Activation::Expired { .. } => Err((GONE, "this sign-up expired. Register a new account."@)),
        Activation::Activate { .. } => Ok(()),
    }
}

/// The answer to a confirmation step.
pub fn activation_answer(a: &Activation) -> (r: Result<(), ApiError>)
    ensures
        outcome(r) == activation_answer_of(*a),
{
    match a {
        Activation::Missing => Err(error(BAD_REQUEST, "confirmation token or code required")),
        Activation::NotFound => Err(error(BAD_REQUEST, "invalid confirmation link or code")),
        Activation::AlreadyActive => Ok(()),
        Activation::AlreadyUsed => Err(error(BAD_REQUEST, "this confirmation link was already used")),
        Activation::Expired { .. } => Err(error(GONE, "this sign-up expired. Register a new account.")),
        Activation::Activate { .. } => Ok(()),
    }
}

/// A pending account whose unused confirmation has expired is never
/// activated: it is marked expired and the confirmation is refused.
pub proof fn law_expired_sign_up_is_not_activated(row: VerificationRow, now: i128)
    requires
        row.status@ != "active"@,
        !row.used,
        row.expires_at < now,
    ensures
        activation_at(true, Some(row), now) == (Activation::Expired { user_id: row.user_id }),
        activation_answer_of(activation_at(true, Some(row), now)) is Err,
{
}

/// An account is activated only through an unused confirmation, before it
/// expires, and only once: a second confirmation with the same link is not
/// an activation.
pub proof fn law_activation_only_before_expiry(row: VerificationRow, now: i128, later: i128, status: String)
    requires
        activation_at(true, Some(row), now) is Activate,
    ensures
        now <= row.expires_at,
        !row.used,
        activation_at(true, Some(VerificationRow { used: true, ..row }), later) !is Activate,
        activation_at(true, Some(VerificationRow { status, ..row }), later) is Activate ==> status@
            != "active"@,
{
}

/// The page a confirmation link leads to: signed in, expired, or invalid.
pub open spec fn verify_destination(app_url: Seq<char>, result: Result<(), (u16, Seq<char>)>) -> Seq<
    char,
> {
    let base = trim_end_char(app_url, '/');
    match result {
        Ok(()) => base + "/?verified=1"@,
        Err(e) => if has_infix(e.1, "expired"@) {
            base + "/?verify_error=expired"@
        } else {
            base + "/?verify_error=invalid"@
        },
    }
}

/// Where a click on a confirmation link is sent, after the confirmation.
pub fn verify_redirect(app_url: &str, result: &Result<(), ApiError>) -> (r: String)
    ensures
        r@ == verify_destination(app_url@, outcome(*result)),
{
    let a = chars_of(app_url);
    let base = trim_end_matching(&a, '/');
    let tail = match result {
        Ok(()) => chars_of("/?verified=1"),
        Err(e) => {
            let m = chars_of(e.body.error.as_str());
            let needle = chars_of("expired");
            if chars_contain(&m, &needle) {
                chars_of("/?verify_error=expired")
            } else {
                chars_of("/?verify_error=invalid")
            }
        },
    };
    let all = concat_chars(&base, &tail);
    string_from_chars(all.as_slice())
}

} // verus!
