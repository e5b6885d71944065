use sosial_video::accounts::UserView;
use sosial_video::api::ApiError;
use sosial_video::broadcasts::{
    BroadcastView,
    check_host, check_joinable, check_not_in_live, check_reaction, default_public, ended_answer,
    host_membership, leave_action, normalize_locale, normalize_reaction,
    normalize_role, normalize_search_tag, parse_tags, pending_requester, plan_broadcast,
    primary_locale, public_only, public_search, reaction_admission, reaction_view, rejected_answer,
    speaking_update, use_worldwide_fallback, LeaveAction,
};

fn err_of<T>(r: Result<T, ApiError>) -> (u16, String) {
    match r {
        Ok(_) => panic!("expected an error"),
        Err(e) => (e.status, e.body.error),
    }
}

#[test]
fn broadcasts_are_public_by_default() {
    assert!(default_public());
}

#[test]
fn tags_from_titles() {
    assert_eq!(parse_tags("Live #Rust and #rust #Music_2024 # #"), vec!["rust", "music_2024"]);
    assert_eq!(parse_tags("#a#b ##c"), vec!["a", "b", "c"]);
    assert_eq!(parse_tags("no tags here"), Vec::<String>::new());
    assert_eq!(parse_tags("#Ünïcode #日本"), vec!["ünïcode", "日本"]);
    let many = "#t1 #t2 #t3 #t4 #t5 #t6 #t7 #t8 #t9 #t10";
    assert_eq!(parse_tags(many), vec!["t1", "t2", "t3", "t4", "t5", "t6", "t7", "t8"]);
    assert_eq!(parse_tags("#A #a #B"), vec!["a", "b"]);
}

#[test]
fn search_tags() {
    assert_eq!(normalize_search_tag("  ##Rust "), "rust");
    assert_eq!(normalize_search_tag("   "), "");
    assert_eq!(normalize_search_tag(&"X".repeat(40)), "x".repeat(32));
    let s = public_search(" #Music ");
    assert_eq!((s.tag.as_str(), s.searching, s.pattern.as_str()), ("music", true, "%music%"));
    let s = public_search("");
    assert_eq!((s.tag.as_str(), s.searching, s.pattern.as_str()), ("", false, "%%"));
    assert!(use_worldwide_fallback(false, 0));
    assert!(!use_worldwide_fallback(true, 0));
    assert!(!use_worldwide_fallback(false, 2));
}

#[test]
fn locales() {
    assert_eq!(primary_locale("nb-NO,nb;q=0.9".into()), "nb");
    assert_eq!(primary_locale(" EN ".into()), "en");
    assert_eq!(primary_locale("".into()), "en");
    assert_eq!(primary_locale("-de".into()), "en");
    assert_eq!(primary_locale("verylonglanguage".into()), "en");
    assert_eq!(primary_locale("fr_CA".into()), "fr");
    assert_eq!(normalize_locale(Some(" de-AT "), Some("fr")), "de");
    assert_eq!(normalize_locale(Some("  "), Some("fr-CA,fr")), "fr");
    assert_eq!(normalize_locale(None, None), "en");
}

#[test]
fn reactions() {
    assert_eq!(normalize_reaction(" \u{2665} "), "\u{2764}\u{fe0f}");
    assert_eq!(normalize_reaction("\u{2764}"), "\u{2764}\u{fe0f}");
    assert_eq!(normalize_reaction(" \u{1f525} "), "\u{1f525}");
    assert_eq!(check_reaction("\u{1f44d}").ok().unwrap(), "\u{1f44d}");
    assert_eq!(check_reaction("\u{2665}").ok().unwrap(), "\u{2764}\u{fe0f}");
    assert_eq!(err_of(check_reaction("\u{1f40d}")), (400, "unsupported reaction".to_string()));
    assert!(reaction_admission(true, 5).is_ok());
    assert_eq!(err_of(reaction_admission(true, 6)), (429, "slow down a little".to_string()));
    assert_eq!(err_of(reaction_admission(false, 0)), (403, "not in this broadcast".to_string()));
    let v = reaction_view(3, "\u{1f389}".into(), UserView { id: 1, username: "eve".into() }, 0);
    assert_eq!(v.created_at, "1970-01-01T00:00:00+00:00");
}

#[test]
fn starting_a_broadcast() {
    let bob = UserView { id: 2, username: "bob".into() };
    let plan = plan_broadcast(&bob, "  #Discussion about #Rust ", 0xab).ok().unwrap();
    assert_eq!(plan.title, "#Discussion about #Rust");
    assert_eq!(plan.tags, vec!["discussion", "rust"]);
    assert_eq!(plan.room_id, "bob-000000000000000000000000000000ab");
    let e = err_of(plan_broadcast(&bob, &"x".repeat(121), 1));
    assert_eq!(e, (400, "title must be 120 characters or less".to_string()));
    assert!(plan_broadcast(&bob, &"x".repeat(120), 1).is_ok());
    let e = err_of(check_not_in_live(true));
    assert_eq!(e, (409, "already in a live broadcast".to_string()));
    assert!(check_not_in_live(false).is_ok());
    let m = host_membership(5, "bob-1".into(), bob, "t".into());
    assert_eq!((m.broadcast_id, m.role.as_str(), m.host.username.as_str()), (5, "host", "bob"));
}

#[test]
fn leaving_and_ending() {
    assert!(matches!(leave_action(Some(4)), LeaveAction::EndBroadcast { id: 4 }));
    assert!(matches!(leave_action(None), LeaveAction::LeaveMembership));
    assert_eq!(err_of(ended_answer(0)), (404, "no live broadcast to end".to_string()));
    assert!(ended_answer(1).is_ok());
}

#[test]
fn joining() {
    assert!(check_joinable(1, Some(2)).is_ok());
    assert_eq!(err_of(check_joinable(1, None)), (404, "broadcast is not live".to_string()));
    assert_eq!(
        err_of(check_joinable(2, Some(2))),
        (400, "host is already in the broadcast".to_string())
    );
    assert_eq!(normalize_role(" Speaker ").ok().unwrap(), "speaker");
    assert_eq!(normalize_role("LISTENER").ok().unwrap(), "listener");
    assert_eq!(err_of(normalize_role("host")), (400, "role must be listener or speaker".to_string()));
    assert_eq!(err_of(check_host(false)), (403, "only the host can accept".to_string()));
    assert!(check_host(true).is_ok());
    assert_eq!(pending_requester(Some(9)).ok(), Some(9));
    assert_eq!(err_of(pending_requester(None)), (404, "join request not found".to_string()));
    assert_eq!(err_of(rejected_answer(0)), (404, "join request not found".to_string()));
    assert!(rejected_answer(2).is_ok());
}

#[test]
fn speaking() {
    assert_eq!(speaking_update(Some("listener")).ok(), Some(false));
    assert_eq!(speaking_update(Some("speaker")).ok(), Some(true));
    assert_eq!(speaking_update(Some("host")).ok(), Some(true));
    assert_eq!(err_of(speaking_update(None)), (403, "not in this broadcast".to_string()));
}

fn listed(id: i32, is_public: bool) -> BroadcastView {
    BroadcastView {
        id,
        room_id: format!("room-{id}"),
        host: UserView { id: 1, username: "bob".into() },
        member_count: 1,
        title: String::new(),
        tags: Vec::new(),
        is_public,
    }
}

#[test]
fn public_list_keeps_public_broadcasts_in_order() {
    let rows = vec![listed(1, true), listed(2, false), listed(3, true), listed(4, false)];
    let ids: Vec<i32> = public_only(rows).into_iter().map(|b| b.id).collect();
    assert_eq!(ids, vec![1, 3]);
    assert!(public_only(vec![listed(5, false)]).is_empty());
}
