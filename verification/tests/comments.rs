use sosial_video::accounts::UserView;
use sosial_video::api::ApiError;
use sosial_video::comments::{
    check_user_exists, comment_text, new_comment_view, reply_target, reply_user,
    visible_comments, CommentRow, ParentComment,
};

fn err_of<T>(r: Result<T, ApiError>) -> (u16, String) {
    match r {
        Ok(_) => panic!("expected an error"),
        Err(e) => (e.status, e.body.error),
    }
}

#[test]
fn comment_texts() {
    assert_eq!(comment_text("  nice stream ").ok().unwrap(), "nice stream");
    assert_eq!(err_of(comment_text("   ")), (400, "comment cannot be empty".to_string()));
    assert!(comment_text(&"\u{e9}".repeat(280)).is_ok());
    assert_eq!(
        err_of(comment_text(&"a".repeat(281))),
        (400, "comment must be 280 characters or fewer".to_string())
    );
    assert_eq!(err_of(check_user_exists(false)), (404, "user not found".to_string()));
    assert!(check_user_exists(true).is_ok());
}

fn parent(target: i32) -> Option<ParentComment> {
    Some(ParentComment { from_user_id: 5, target_user_id: target, from_username: "eve".into() })
}

#[test]
fn replies() {
    assert!(reply_target(1, 2, None, false, None).ok().unwrap().is_none());
    let r = reply_target(1, 2, Some(10), false, parent(1)).ok().unwrap().unwrap();
    assert_eq!((r.id, r.username.as_str()), (5, "eve"));
    let r = reply_target(1, 1, Some(10), true, parent(1)).ok().unwrap().unwrap();
    assert_eq!(r.id, 5);
    assert_eq!(
        err_of(reply_target(1, 2, None, true, None)),
        (400, "private replies must be on a comment".to_string())
    );
    assert_eq!(err_of(reply_target(1, 2, Some(10), false, None)), (404, "comment not found".to_string()));
    assert_eq!(
        err_of(reply_target(1, 2, Some(10), false, parent(3))),
        (400, "comment does not belong here".to_string())
    );
    assert_eq!(
        err_of(reply_target(1, 2, Some(10), true, parent(1))),
        (403, "only the camera owner can send a private reply".to_string())
    );
}

fn row(id: i32, from: i32, private: bool, reply_to: Option<i32>) -> CommentRow {
    CommentRow {
        id,
        body: format!("c{id}"),
        from: UserView { id: from, username: format!("u{from}") },
        created_at: 0,
        parent_id: None,
        is_private: private,
        target_user_id: 1,
        reply_to_id: reply_to,
        reply_to_name: reply_to.map(|r| format!("u{r}")),
    }
}

#[test]
fn private_comments_are_filtered() {
    let rows = vec![
        row(1, 2, false, None),
        row(2, 1, true, Some(3)),
        row(3, 4, true, Some(1)),
        row(4, 2, false, Some(4)),
    ];
    let ids = |viewer| visible_comments(&rows, viewer).iter().map(|c| c.id).collect::<Vec<_>>();
    assert_eq!(ids(1), vec![1, 2, 3, 4]);
    assert_eq!(ids(3), vec![1, 2, 4]);
    assert_eq!(ids(4), vec![1, 3, 4]);
    assert_eq!(ids(9), vec![1, 4]);
    let shown = visible_comments(&rows, 3);
    assert_eq!(shown[1].body, "c2");
    assert_eq!(shown[1].reply_to.as_ref().map(|u| u.username.as_str()), Some("u3"));
    assert_eq!(shown[0].created_at, "1970-01-01T00:00:00+00:00");
    assert!(shown[0].reply_to.is_none());
}

#[test]
fn comment_lists_stop_at_two_hundred() {
    let rows: Vec<CommentRow> = (0..250).map(|i| row(i, 2, false, None)).collect();
    let shown = visible_comments(&rows, 9);
    assert_eq!(shown.len(), 200);
    assert_eq!(shown[199].id, 199);
}

#[test]
fn reply_users_need_both_fields() {
    assert_eq!(reply_user(Some(1), &Some("a".into())).map(|u| u.id), Some(1));
    assert!(reply_user(Some(1), &None).is_none());
    assert!(reply_user(None, &Some("a".into())).is_none());
    let v = new_comment_view(1, "hi".into(), UserView { id: 2, username: "b".into() }, 1_500_000_000, None, false, None);
    assert_eq!(v.created_at, "1970-01-01T00:00:01.500+00:00");
}
