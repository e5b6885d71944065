//! Sign-in, sessions and presence: who a request comes from and where a
//! user can be reached.

use vstd::prelude::*;
use crate::api::{
    error, internal, outcome, text_outcome, ApiError, BAD_REQUEST, FORBIDDEN,
    INTERNAL_SERVER_ERROR, UNAUTHORIZED,
};
use crate::clock::{in_calendar_range, rfc3339, rfc3339_text, secs_of, subsec_of};
use crate::ids::{hyphenated, parse_token, token_text, uuid_text_value};
use crate::text::{
    chars_of, chars_start_with, concat_chars, copy_range, lemma_byte_len_bounds, lemma_take_until_prefix, same_text, str_byte_len,
    starts_with, string_from_chars, take_until, trim, trim_chars, trim_str,
};

verus! {

/// A user as shown to other users.
#[derive(Clone)]
pub struct UserView {
    pub id: i32,
    pub username: String,
}

/// How long a session lasts: seven days, in nanoseconds.
pub const SESSION_TTL_NANOS: i128 = 604_800_000_000_000;

/// How recently a user must have reported presence to count as online:
/// ninety seconds, in nanoseconds.
pub const ONLINE_WINDOW_NANOS: i128 = 90_000_000_000;

/// The accounts made for local testing, with their passwords.
pub open spec fn test_user_list() -> Seq<(Seq<char>, Seq<char>)> {
    seq![
        ("alice"@, "alice123"@),
        ("bob"@, "bob123"@),
        ("carol"@, "carol123"@),
        ("dave"@, "dave123"@),
        ("eve"@, "eve123"@),
    ]
}

/// The accounts made for local testing: `(username, password)`.
pub fn test_users() -> (r: Vec<(String, String)>)
    ensures
        r@.len() == test_user_list().len(),
        forall|i: int|
            0 <= i < r@.len() ==> (#[trigger] r@[i]).0@ == test_user_list()[i].0 && r@[i].1@
                == test_user_list()[i].1,
{
    let mut r: Vec<(String, String)> = Vec::new();
    r.push(("alice".to_owned(), "alice123".to_owned()));
    r.push(("bob".to_owned(), "bob123".to_owned()));
    r.push(("carol".to_owned(), "carol123".to_owned()));
    r.push(("dave".to_owned(), "dave123".to_owned()));
    r.push(("eve".to_owned(), "eve123".to_owned()));
    r
}

#[verifier::external_type_specification]
#[verifier::external_body]
pub struct ExBcryptError(bcrypt::BcryptError);

/// What `bcrypt::verify` answers for `password` against the stored `hash`:
/// `Some(matches)`, or `None` where it fails (a malformed hash).
pub uninterp spec fn bcrypt_check(password: Seq<char>, hash: Seq<char>) -> Option<bool>;

/// `bcrypt::verify`. Claims: its answer is a function of the password and the
/// hash alone.
#[verifier::external_body]
fn bcrypt_verify(password: &str, hash: &str) -> (r: Result<bool, bcrypt::BcryptError>)
    ensures
        match r {
            Ok(b) => bcrypt_check(password@, hash@) == Some(b),
            Err(_) => bcrypt_check(password@, hash@) is None,
        },
{
    bcrypt::verify(password, hash)
}

/// `bcrypt::hash` at `bcrypt::DEFAULT_COST`. The salt is random, so nothing
/// is claimed of which hash comes back; claimed is that `bcrypt::verify`
/// accepts the same password against it (both run the same salted hash over
/// the same bytes, and the cost is in the allowed range). It fails only when
/// the random source does.
#[verifier::external_body]
fn bcrypt_hash(password: &str) -> (r: Result<String, bcrypt::BcryptError>)
    ensures
        r matches Ok(h) ==> bcrypt_check(password@, h@) == Some(true),
{
    bcrypt::hash(password, bcrypt::DEFAULT_COST)
}

/// The stored hash for `password`. A failure of the random source is an
/// internal error.
pub fn hash_password(password: &str) -> (r: Result<String, ApiError>)
    ensures
        r matches Ok(h) ==> bcrypt_check(password@, h@) == Some(true),
        r matches Err(e) ==> e@ == (INTERNAL_SERVER_ERROR, "internal error"@),
{
    match bcrypt_hash(password) {
        Ok(h) => Ok(h),
        Err(e) => Err(internal(e)),
    }
}

/// What a sign-in form is answered before the account is looked up: the
/// trimmed username, or a refusal when it or the password is empty.
pub open spec fn login_fields(username: Seq<char>, password: Seq<char>) -> Result<
    Seq<char>,
    (u16, Seq<char>),
> {
    let u = trim(username);
    if u.len() == 0 || password.len() == 0 {
        Err((BAD_REQUEST, "username and password required"@))
    } else {
        Ok(u)
    }
}

/// Checks the sign-in form; gives the username to look up.
pub fn validate_login(username: &str, password: &str) -> (r: Result<String, ApiError>)
    ensures
        text_outcome(r) == login_fields(username@, password@),
{
    let u = trim_str(username);
    if u.len() == 0 || str_byte_len(password) == 0 {
        proof {
            lemma_byte_len_bounds(password@);
        }
        return Err(error(BAD_REQUEST, "username and password required"));
    }
    proof {
        lemma_byte_len_bounds(password@);
    }
    Ok(string_from_chars(u.as_slice()))
}

/// The account found under a username: its id, stored hash and status.
pub struct AccountRow {
    pub id: i32,
    pub password_hash: String,
    pub status: String,
}

/// Who signs in: the account's id when the password matches its hash and
/// the account is active.
pub open spec fn sign_in(row: Option<AccountRow>, password: Seq<char>) -> Result<
    i32,
    (u16, Seq<char>),
> {
    match row {
        None => Err((UNAUTHORIZED, "invalid credentials"@)),
        Some(a) => match bcrypt_check(password, a.password_hash@) {
            None => Err((INTERNAL_SERVER_ERROR, "internal error"@)),
            Some(false) => Err((UNAUTHORIZED, "invalid credentials"@)),
            Some(true) => if a.status@ == "active"@ {
                Ok(a.id)
            } else {
                Err((FORBIDDEN, "account is not active"@))
            },
        },
    }
}

/// Checks a password against the account found for it.
pub fn authenticate(row: Option<AccountRow>, password: &str) -> (r: Result<i32, ApiError>)
    ensures
        outcome(r) == sign_in(row, password@),
{
    match row {
        None => Err(error(UNAUTHORIZED, "invalid credentials")),
        Some(a) => match bcrypt_verify(password, a.password_hash.as_str()) {
            Err(e) => Err(internal(e)),
            Ok(false) => Err(error(UNAUTHORIZED, "invalid credentials")),
            Ok(true) => {
                if same_text(a.status.as_str(), "active") {
                    Ok(a.id)
                } else {
                    Err(error(FORBIDDEN, "account is not active"))
                }
            },
        },
    }
}

/// A password that was stored with `hash_password` signs in to its active
/// account.
pub proof fn law_stored_password_signs_in(id: i32, password: Seq<char>, hash: String, status: String)
    requires
        bcrypt_check(password, hash@) == Some(true),
        status@ == "active"@,
    ensures
        sign_in(Some(AccountRow { id, password_hash: hash, status }), password) == Ok::<
            i32,
            (u16, Seq<char>),
        >(id),
{
}

/// An account that is not active never signs in, whatever the password.
pub proof fn law_inactive_account_never_signs_in(row: AccountRow, password: Seq<char>)
    requires
        row.status@ != "active"@,
    ensures
        sign_in(Some(row), password) is Err,
{
}

/// The text before the token in an `Authorization` header.
pub open spec fn bearer_prefix() -> Seq<char> {
    seq!['B', 'e', 'a', 'r', 'e', 'r', ' ']
}

/// The session token named by an `Authorization` header (`None` where the
/// header is absent or not visible ASCII).
pub open spec fn bearer(header: Option<Seq<char>>) -> Result<u128, (u16, Seq<char>)> {
    match header {
        None => Err((UNAUTHORIZED, "missing authorization"@)),
        Some(h) => if !starts_with(h, bearer_prefix()) {
            Err((UNAUTHORIZED, "invalid authorization"@))
        } else {
            match uuid_text_value(h.skip(7)) {
                Some(v) => Ok(v),
                None => Err((UNAUTHORIZED, "invalid token"@)),
            }
        },
    }
}

/// Reads the session token from an `Authorization` header.
pub fn bearer_token(header: Option<&str>) -> (r: Result<u128, ApiError>)
    ensures
        outcome(r) == bearer(
            match header {
                Some(h) => Some(h@),
                None => None,
            },
        ),
{
    match header {
        None => Err(error(UNAUTHORIZED, "missing authorization")),
        Some(h) => {
            let cs = chars_of(h);
            let p: Vec<char> = vec!['B', 'e', 'a', 'r', 'e', 'r', ' '];
            assert(p@ =~= bearer_prefix());
            if !chars_start_with(&cs, &p) {
                return Err(error(UNAUTHORIZED, "invalid authorization"));
            }
            let rest = copy_range(&cs, 7, cs.len());
            let t = string_from_chars(rest.as_slice());
            assert(t@ =~= h@.skip(7));
            match parse_token(t.as_str()) {
                Some(v) => Ok(v),
                None => Err(error(UNAUTHORIZED, "invalid token")),
            }
        },
    }
}

/// A token given out at sign-in is read back from the header that carries it.
pub proof fn law_issued_token_is_read_back(token: u128, text: Seq<char>)
    requires
        uuid_text_value(text) == Some(token),
    ensures
        bearer(Some(bearer_prefix() + text)) == Ok::<u128, (u16, Seq<char>)>(token),
{
    let h = bearer_prefix() + text;
    assert(h.subrange(0, 7) =~= bearer_prefix());
    assert(h.skip(7) =~= text);
}

/// The `Authorization` header value for a session token.
pub fn authorization_value(token: u128) -> (r: String)
    ensures
        r@ == bearer_prefix() + hyphenated(token),
        bearer(Some(r@)) == Ok::<u128, (u16, Seq<char>)>(token),
{
    let t = token_text(token);
    let p: Vec<char> = vec!['B', 'e', 'a', 'r', 'e', 'r', ' '];
    let tc = chars_of(t.as_str());
    let all = concat_chars(&p, &tc);
    proof {
        assert(p@ =~= bearer_prefix());
        law_issued_token_is_read_back(token, t@);
    }
    string_from_chars(all.as_slice())
}

/// The session found for a token: the user and when the session ends.
pub struct SessionRow {
    pub user_id: i32,
    pub username: String,
    pub expires_at: i128,
}

/// Where a session stands at an instant.
pub enum SessionState {
    Active,
    Unknown,
    Expired,
}

/// Where the session `row` stands at `now`: a session ends at its expiry.
pub open spec fn session_state_at(row: Option<SessionRow>, now: i128) -> SessionState {
    match row {
        None => SessionState::Unknown,
        Some(s) => if s.expires_at < now {
            SessionState::Expired
        } else {
            SessionState::Active
        },
    }
}

/// Where the session `row` stands at `now` (an expired one is deleted by
/// the caller).
pub fn session_state(row: &Option<SessionRow>, now: i128) -> (r: SessionState)
    ensures
        r == session_state_at(*row, now),
{
    match row {
        None => SessionState::Unknown,
        Some(s) => if s.expires_at < now {
            SessionState::Expired
        } else {
            SessionState::Active
        },
    }
}

/// Who a request with the session `row` comes from at `now`.
pub open spec fn session_user(row: Option<SessionRow>, now: i128) -> Result<
    (i32, Seq<char>),
    (u16, Seq<char>),
> {
    match session_state_at(row, now) {
        SessionState::Unknown => Err((UNAUTHORIZED, "invalid session"@)),
        SessionState::Expired => Err((UNAUTHORIZED, "session expired"@)),
        SessionState::Active => Ok((row->0.user_id, row->0.username@)),
    }
}

/// The user a request comes from, given the session found for its token.
pub fn current_user(row: Option<SessionRow>, now: i128) -> (r: Result<UserView, ApiError>)
    ensures
        match r {
            Ok(u) => session_user(row, now) == Ok::<(i32, Seq<char>), (u16, Seq<char>)>(
                (u.id, u.username@),
            ),
            Err(e) => session_user(row, now) == Err::<(i32, Seq<char>), (u16, Seq<char>)>(e@),
        },
{
    let state = session_state(&row, now);
    match state {
        SessionState::Unknown => Err(error(UNAUTHORIZED, "invalid session")),
        SessionState::Expired => Err(error(UNAUTHORIZED, "session expired")),
        SessionState::Active => {
            let s = row.unwrap();
            Ok(UserView { id: s.user_id, username: s.username })
        },
    }
}

/// A session is accepted until the instant it ends and refused after it.
pub proof fn law_session_valid_until_expiry(s: SessionRow, now: i128)
    ensures
        (session_user(Some(s), now) is Ok) <==> now <= s.expires_at,
{
}

/// When a session made at `now` ends.
pub fn session_expires_at(now: i128) -> (r: i128)
    requires
        now <= i128::MAX - SESSION_TTL_NANOS,
    ensures
        r == now + SESSION_TTL_NANOS,
{
    now + SESSION_TTL_NANOS
}

/// A session made at `now` is accepted for the next seven days.
pub proof fn law_new_session_lasts_a_week(user_id: i32, username: String, made: i128, now: i128)
    requires
        made <= now <= made + SESSION_TTL_NANOS,
        made + SESSION_TTL_NANOS <= i128::MAX,
    ensures
        session_user(
            Some(SessionRow { user_id, username, expires_at: (made + SESSION_TTL_NANOS) as i128 }),
            now,
        ) is Ok,
{
}

/// Stops at a comma.
pub open spec fn comma_stop() -> spec_fn(char) -> bool {
    |c: char| c == ','
}

/// The client's address: the first entry of `X-Forwarded-For` where it
/// holds one, else the peer's address.
pub open spec fn client_address(forwarded: Option<Seq<char>>, peer: Seq<char>) -> Seq<char> {
    match forwarded {
        Some(v) => {
            let first = trim(take_until(v, comma_stop()));
            if first.len() > 0 {
                first
            } else {
                peer
            }
        },
        None => peer,
    }
}

/// The text of `s` before its first comma.
pub fn before_comma(s: &Vec<char>) -> (r: Vec<char>)
    ensures
        r@ == take_until(s@, comma_stop()),
{
    let mut i: usize = 0;
    while i < s.len() && s[i] != ','
        invariant
            i <= s.len(),
            forall|k: int| 0 <= k < i ==> !(comma_stop())(#[trigger] s@[k]),
        decreases s.len() - i,
    {
        i = i + 1;
    }
    proof {
        lemma_take_until_prefix(s@, comma_stop(), i as int);
    }
    copy_range(s, 0, i)
}

/// The client's address, from the `X-Forwarded-For` header (when present and
/// readable) and the address of the connection.
pub fn client_ip(forwarded: Option<&str>, peer: &str) -> (r: String)
    ensures
        r@ == client_address(
            match forwarded {
                Some(v) => Some(v@),
                None => None,
            },
            peer@,
        ),
{
    match forwarded {
        Some(v) => {
            let cs = chars_of(v);
            let first = before_comma(&cs);
            let t = trim_chars(&first);
            if t.len() > 0 {
                string_from_chars(t.as_slice())
            } else {
                peer.to_owned()
            }
        },
        None => peer.to_owned(),
    }
}

/// The address a user reports presence from: the one the client gives,
/// unless it is blank, else the one the request came from.
pub open spec fn reported_address(given: Option<Seq<char>>, seen: Seq<char>) -> Seq<char> {
    match given {
        Some(s) => if trim(s).len() > 0 {
            s
        } else {
            seen
        },
        None => seen,
    }
}

/// The address to record for a presence report.
pub fn presence_ip(given: Option<String>, seen: String) -> (r: String)
    ensures
        r@ == reported_address(
            match given {
                Some(s) => Some(s@),
                None => None,
            },
            seen@,
        ),
{
    match given {
        Some(s) => {
            let t = trim_str(s.as_str());
            if t.len() > 0 {
                s
            } else {
                seen
            }
        },
        None => seen,
    }
}

/// Whether a user last seen at `last_seen` counts as online at `now`.
pub open spec fn online_at(last_seen: Option<i128>, now: i128) -> bool {
    match last_seen {
        Some(t) => t <= now && now - t <= ONLINE_WINDOW_NANOS,
        None => false,
    }
}

/// Whether a user last seen at `last_seen` counts as online at `now`.
pub fn is_online(last_seen: Option<i128>, now: i128) -> (r: bool)
    ensures
        r == online_at(last_seen, now),
{
    match last_seen {
        Some(t) => t <= now && (t > i128::MAX - ONLINE_WINDOW_NANOS || now
            <= t + ONLINE_WINDOW_NANOS),
        None => false,
    }
}

/// A user as listed among the contacts.
pub struct ContactView {
    pub id: i32,
    pub username: String,
    pub ip_address: Option<String>,
    pub port: Option<i32>,
    pub last_seen: Option<String>,
    pub online: bool,
}

/// The contact entry of a user, as seen at `now`.
pub fn contact_view(
    id: i32,
    username: String,
    ip_address: Option<String>,
    port: Option<i32>,
    last_seen: Option<i128>,
    now: i128,
) -> (r: ContactView)
    requires
        last_seen matches Some(t) ==> in_calendar_range(t),
    ensures
        r.id == id,
        r.username == username,
        r.ip_address == ip_address,
        r.port == port,
        r.online == online_at(last_seen, now),
        match last_seen {
            Some(t) => r.last_seen matches Some(s) && s@ == rfc3339_text(
                secs_of(t),
                subsec_of(t),
            ),
            None => r.last_seen is None,
        },
{
    let online = is_online(last_seen, now);
    let seen = match last_seen {
        Some(t) => Some(rfc3339(t)),
        None => None,
    };
    ContactView { id, username, ip_address, port, last_seen: seen, online }
}

} // verus!
