//! Comments under a user's camera: public comments, replies, and private
//! replies from the camera's owner.

use vstd::prelude::*;
use crate::accounts::UserView;
use crate::api::{
    error, fails_with, outcome, text_outcome, ApiError, BAD_REQUEST, FORBIDDEN, NOT_FOUND,
};
use crate::clock::{in_calendar_range, rfc3339, rfc3339_text, secs_of, subsec_of};
use crate::text::{lemma_filter_take_is_prefix, string_from_chars, trim, trim_str};

verus! {

/// A comment as shown.
pub struct CommentView {
    pub id: i32,
    pub body: String,
    pub from: UserView,
    pub created_at: String,
    pub parent_id: Option<i32>,
    pub is_private: bool,
    pub reply_to: Option<UserView>,
}

/// A comment sent.
pub struct CommentRequest {
    pub body: String,
    pub parent_id: Option<i32>,
    pub is_private: bool,
}

/// The longest comment, in characters.
pub const MAX_COMMENT_LEN: usize = 280;

/// How many comments a list shows.
pub const COMMENT_LIST_LIMIT: usize = 200;

/// The text of a comment: trimmed, not empty, at most 280 characters.
pub open spec fn comment_text_rule(raw: Seq<char>) -> Result<Seq<char>, (u16, Seq<char>)> {
    let t = trim(raw);
    if t.len() == 0 {
        Err((BAD_REQUEST, "comment cannot be empty"@))
    } else if t.len() > MAX_COMMENT_LEN {
        Err((BAD_REQUEST, "comment must be 280 characters or fewer"@))
    } else {
        Ok(t)
    }
}

/// Checks and trims the text of a comment.
pub fn comment_text(raw: &str) -> (r: Result<String, ApiError>)
    ensures
        text_outcome(r) == comment_text_rule(raw@),
{
    let t = trim_str(raw);
    if t.len() == 0 {
        Err(error(BAD_REQUEST, "comment cannot be empty"))
    } else if t.len() > MAX_COMMENT_LEN {
        Err(error(BAD_REQUEST, "comment must be 280 characters or fewer"))
    } else {
        Ok(string_from_chars(t.as_slice()))
    }
}

/// Refuses comments under, or lists of, a user that does not exist.
pub fn check_user_exists(exists: bool) -> (r: Result<(), ApiError>)
    ensures
        !exists ==> fails_with(r, NOT_FOUND, "user not found"@),
        exists ==> r is Ok,
{
    if exists {
        Ok(())
    } else {
        Err(error(NOT_FOUND, "user not found"))
    }
}

/// The comment a reply answers: its author and the camera it is under.
pub struct ParentComment {
    pub from_user_id: i32,
    pub target_user_id: i32,
    pub from_username: String,
}

/// Whom a comment by `author` under the camera of `target` replies to
/// (`Ok(None)`: nobody), given the comment it answers (looked up where a
/// parent is named). A reply stays under the camera of its parent; a
/// private comment must be a reply, and only the camera's owner sends them.
pub open spec fn reply_rule(
    target: i32,
    author: i32,
    parent_id: Option<i32>,
    is_private: bool,
    parent: Option<ParentComment>,
) -> Result<Option<(i32, Seq<char>)>, (u16, Seq<char>)> {
    match parent_id {
        Some(_) => match parent {
            None => Err((NOT_FOUND, "comment not found"@)),
            Some(p) => if p.target_user_id != target {
                Err((BAD_REQUEST, "comment does not belong here"@))
            } else if is_private && author != target {
                Err((FORBIDDEN, "only the camera owner can send a private reply"@))
            } else {
                Ok(Some((p.from_user_id, p.from_username@)))
            },
        },
        None => if is_private {
            Err((BAD_REQUEST, "private replies must be on a comment"@))
        } else {
            Ok(None)
        },
    }
}

/// Decides whom a new comment replies to, or refuses it.
pub fn reply_target(
    target: i32,
    author: i32,
    parent_id: Option<i32>,
    is_private: bool,
    parent: Option<ParentComment>,
) -> (r: Result<Option<UserView>, ApiError>)
    ensures
        match r {
            Ok(Some(u)) => reply_rule(target, author, parent_id, is_private, parent) == Ok::<
                Option<(i32, Seq<char>)>,
                (u16, Seq<char>),
            >(Some((u.id, u.username@))),
            Ok(None) => reply_rule(target, author, parent_id, is_private, parent) == Ok::<
                Option<(i32, Seq<char>)>,
                (u16, Seq<char>),
            >(None),
            Err(e) => reply_rule(target, author, parent_id, is_private, parent) == Err::<
                Option<(i32, Seq<char>)>,
                (u16, Seq<char>),
            >(e@),
        },
{
    match parent_id {
        Some(_) => match parent {
            None => Err(error(NOT_FOUND, "comment not found")),
            Some(p) => {
                if p.target_user_id != target {
                    Err(error(BAD_REQUEST, "comment does not belong here"))
                } else if is_private && author != target {
                    Err(error(FORBIDDEN, "only the camera owner can send a private reply"))
                } else {
                    Ok(Some(UserView { id: p.from_user_id, username: p.from_username }))
                }
            },
        },
        None => {
            if is_private {
                Err(error(BAD_REQUEST, "private replies must be on a comment"))
            } else {
                Ok(None)
            }
        },
    }
}

/// Only the owner of a camera sends private replies, and only as replies.
pub proof fn law_private_replies_come_from_the_owner(
    target: i32,
    author: i32,
    parent_id: Option<i32>,
    parent: Option<ParentComment>,
)
    requires
        reply_rule(target, author, parent_id, true, parent) is Ok,
    ensures
        author == target,
        parent_id is Some,
{
}

/// A stored comment under a camera.
pub struct CommentRow {
    pub id: i32,
    pub body: String,
    pub from: UserView,
    pub created_at: i128,
    pub parent_id: Option<i32>,
    pub is_private: bool,
    pub target_user_id: i32,
    pub reply_to_id: Option<i32>,
    pub reply_to_name: Option<String>,
}

/// Whether `viewer` sees the comment `c`: a public comment everyone sees; a
/// private one only its author, the user it replies to, and the camera's
/// owner.
pub open spec fn comment_visible(c: CommentRow, viewer: i32) -> bool {
    ||| !c.is_private
    ||| c.from.id == viewer
    ||| c.reply_to_id == Some(viewer)
    ||| c.target_user_id == viewer
}

/// The comments of `rows` that `viewer` sees, in order.
pub open spec fn visible_rows(rows: Seq<CommentRow>, viewer: i32) -> Seq<CommentRow>
    decreases rows.len(),
{
    if rows.len() == 0 {
        Seq::empty()
    } else if comment_visible(rows.last(), viewer) {
        visible_rows(rows.drop_last(), viewer).push(rows.last())
    } else {
        visible_rows(rows.drop_last(), viewer)
    }
}

/// The comments a list shows `viewer`: the first 200 they see.
pub open spec fn shown_rows(rows: Seq<CommentRow>, viewer: i32) -> Seq<CommentRow> {
    let v = visible_rows(rows, viewer);
    if v.len() <= COMMENT_LIST_LIMIT {
        v
    } else {
        v.take(COMMENT_LIST_LIMIT as int)
    }
}

/// Whether `v` shows the stored comment `c`.
pub open spec fn shows(v: CommentView, c: CommentRow) -> bool {
    &&& v.id == c.id
    &&& v.body == c.body
    &&& v.from == c.from
    &&& v.created_at@ == rfc3339_text(secs_of(c.created_at), subsec_of(c.created_at))
    &&& v.parent_id == c.parent_id
    &&& v.is_private == c.is_private
    &&& v.reply_to == match (c.reply_to_id, c.reply_to_name) {
        (Some(id), Some(username)) => Some(UserView { id, username }),
        _ => None,
    }
}

fn copy_user(u: &UserView) -> (r: UserView)
    ensures
        r == *u,
{
    UserView { id: u.id, username: u.username.clone() }
}

/// The user a comment replies to, where both the id and the name are known.
pub fn reply_user(id: Option<i32>, name: &Option<String>) -> (r: Option<UserView>)
    ensures
        r == match (id, *name) {
            (Some(id), Some(username)) => Some(UserView { id, username }),
            _ => None,
        },
{
    match (id, name) {
        (Some(i), Some(n)) => Some(UserView { id: i, username: n.clone() }),
        _ => None,
    }
}

/// The list of comments under a camera that `viewer` is shown, from all the
/// comments under it in the order they were written.
pub fn visible_comments(rows: &Vec<CommentRow>, viewer: i32) -> (r: Vec<CommentView>)
    requires
        forall|i: int| 0 <= i < rows@.len() ==> in_calendar_range(#[trigger] rows@[i].created_at),
    ensures
        r@.len() == shown_rows(rows@, viewer).len(),
        forall|i: int| 0 <= i < r@.len() ==> shows(#[trigger] r@[i], shown_rows(rows@, viewer)[i]),
{
    let mut out: Vec<CommentView> = Vec::new();
    let mut i: usize = 0;
    while i < rows.len() && out.len() < COMMENT_LIST_LIMIT
        invariant
            i <= rows@.len(),
            forall|k: int|
                0 <= k < rows@.len() ==> in_calendar_range(#[trigger] rows@[k].created_at),
            out@.len() == visible_rows(rows@.take(i as int), viewer).len(),
            out@.len() <= COMMENT_LIST_LIMIT,
            forall|k: int|
                0 <= k < out@.len() ==> shows(
                    #[trigger] out@[k],
                    visible_rows(rows@.take(i as int), viewer)[k],
                ),
        decreases rows@.len() - i,
    {
        let c = &rows[i];
        assert(rows@.take(i + 1).drop_last() =~= rows@.take(i as int));
        assert(rows@.take(i + 1).last() == rows@[i as int]);
        let visible = !c.is_private || c.from.id == viewer || c.reply_to_id == Some(viewer)
            || c.target_user_id == viewer;
        if visible {
            let v = CommentView {
                id: c.id,
                body: c.body.clone(),
                from: copy_user(&c.from),
                created_at: rfc3339(c.created_at),
                parent_id: c.parent_id,
                is_private: c.is_private,
                reply_to: reply_user(c.reply_to_id, &c.reply_to_name),
            };
            out.push(v);
        }
        i = i + 1;
    }
    proof {
        lemma_visible_prefix(rows@, viewer, i as int);
        if i == rows@.len() {
            assert(rows@.take(i as int) =~= rows@);
        }
    }
    out
}

pub proof fn lemma_visible_prefix(rows: Seq<CommentRow>, viewer: i32, i: int)
    requires
        0 <= i <= rows.len(),
    ensures
        visible_rows(rows.take(i), viewer).len() <= visible_rows(rows, viewer).len(),
        forall|k: int|
            0 <= k < visible_rows(rows.take(i), viewer).len() ==> #[trigger] visible_rows(
                rows.take(i),
                viewer,
            )[k] == visible_rows(rows, viewer)[k],
    decreases rows.len() - i,
{
    if i < rows.len() {
        lemma_visible_prefix(rows, viewer, i + 1);
        let t = rows.take(i + 1);
        assert(t.drop_last() =~= rows.take(i));
        let a = visible_rows(rows.take(i), viewer);
        let b = visible_rows(t, viewer);
        assert(b == a || b == a.push(t.last()));
        assert forall|k: int| 0 <= k < a.len() implies #[trigger] a[k] == visible_rows(rows, viewer)[k] by {
            assert(b[k] == a[k]);
        }
    } else {
        assert(rows.take(i) =~= rows);
    }
}

/// A private comment is shown to nobody but its author, the user it replies
/// to and the camera's owner.
pub proof fn law_private_comments_stay_private(rows: Seq<CommentRow>, viewer: i32, k: int)
    requires
        0 <= k < shown_rows(rows, viewer).len(),
        shown_rows(rows, viewer)[k].is_private,
    ensures
        ({
            let c = shown_rows(rows, viewer)[k];
            c.from.id == viewer || c.reply_to_id == Some(viewer) || c.target_user_id == viewer
        }),
{
    lemma_visible_rows_visible(rows, viewer);
}

pub proof fn lemma_visible_rows_visible(rows: Seq<CommentRow>, viewer: i32)
    ensures
        forall|k: int|
            0 <= k < visible_rows(rows, viewer).len() ==> comment_visible(
                #[trigger] visible_rows(rows, viewer)[k],
                viewer,
            ),
        visible_rows(rows, viewer).len() <= rows.len(),
    decreases rows.len(),
{
    if rows.len() > 0 {
        lemma_visible_rows_visible(rows.drop_last(), viewer);
    }
}

/// The view of a comment just stored.
pub fn new_comment_view(
    id: i32,
    body: String,
    from: UserView,
    created_at: i128,
    parent_id: Option<i32>,
    is_private: bool,
    reply_to: Option<UserView>,
) -> (r: CommentView)
    requires
        in_calendar_range(created_at),
    ensures
        r.id == id,
        r.body == body,
        r.from == from,
        r.created_at@ == rfc3339_text(secs_of(created_at), subsec_of(created_at)),
        r.parent_id == parent_id,
        r.is_private == is_private,
        r.reply_to == reply_to,
{
    CommentView { id, body, from, created_at: rfc3339(created_at), parent_id, is_private, reply_to }
}

/// Whether a comment is public (not a private reply).
pub open spec fn public_comment() -> spec_fn(CommentRow) -> bool {
    |c: CommentRow| !c.is_private
}

pub proof fn lemma_public_rows_visible(rows: Seq<CommentRow>, viewer: i32)
    ensures
        visible_rows(rows, viewer).filter(public_comment()) == rows.filter(public_comment()),
    decreases rows.len(),
{
    reveal_with_fuel(Seq::filter, 1);
    if rows.len() > 0 {
        lemma_public_rows_visible(rows.drop_last(), viewer);
        let v = visible_rows(rows.drop_last(), viewer);
        if comment_visible(rows.last(), viewer) {
            assert(v.push(rows.last()).drop_last() =~= v);
        }
    }
}

/// Every comment that is not private is shown to every viewer, in the order
/// written: the public comments of a list are the first public comments
/// under the camera, and, unless the list is full (200 comments), all of
/// them.
pub proof fn law_public_comments_are_shown_to_all(rows: Seq<CommentRow>, viewer: i32)
    ensures
        shown_rows(rows, viewer).filter(public_comment()).is_prefix_of(
            rows.filter(public_comment()),
        ),
        shown_rows(rows, viewer).len() < COMMENT_LIST_LIMIT ==> shown_rows(rows, viewer).filter(
            public_comment(),
        ) == rows.filter(public_comment()),
{
    let v = visible_rows(rows, viewer);
    lemma_public_rows_visible(rows, viewer);
    if v.len() <= COMMENT_LIST_LIMIT {
        assert(v.filter(public_comment()).subrange(0, v.filter(public_comment()).len() as int)
            =~= v.filter(public_comment()));
    } else {
        lemma_filter_take_is_prefix(v, public_comment(), COMMENT_LIST_LIMIT as int);
    }
}

} // verus!
