use sosial_video::sfu::{
    check_offer_type, ends_publication, local_track_id, named_track_kind, offer_from_body,
    parse_port, received_track_slot, require_peer_id, sdp_answer, CodecKind, PeerState,
    RoomRegistry, SdpRequest, TrackKind,
};

fn status_of(r: &RoomRegistry<u32>, room: &str) -> Vec<(String, bool, bool)> {
    r.status(room).publishers.into_iter().map(|p| (p.peer_id, p.has_video, p.has_audio)).collect()
}

#[test]
fn registry_tracks_publishers() {
    let mut r: RoomRegistry<u32> = RoomRegistry::new();
    assert!(status_of(&r, "a").is_empty());
    r.ensure_publisher("a", "p1");
    r.ensure_publisher("a", "p1");
    assert_eq!(status_of(&r, "a"), vec![("p1".to_string(), false, false)]);
    r.set_track("a", "p1", TrackKind::Video, 10);
    r.set_track("a", "p2", TrackKind::Audio, 20);
    r.set_track("b", "p1", TrackKind::Audio, 30);
    assert_eq!(
        status_of(&r, "a"),
        vec![("p1".to_string(), true, false), ("p2".to_string(), false, true)]
    );
    assert_eq!(r.tracks("a", "p1"), (Some(10), None));
    assert_eq!(r.tracks("b", "p1"), (None, Some(30)));
    assert_eq!(r.tracks("c", "p1"), (None, None));
    r.clear_track("a", "p1", TrackKind::Video);
    assert_eq!(r.tracks("a", "p1"), (None, None));
    r.clear_track("x", "y", TrackKind::Audio);
    r.remove_publisher("a", "p2");
    assert_eq!(status_of(&r, "a"), vec![("p1".to_string(), false, false)]);
    assert_eq!(r.status("b").room, "b");
    assert_eq!(status_of(&r, "b"), vec![("p1".to_string(), false, true)]);
}

#[test]
fn publish_request_checks() {
    assert_eq!(require_peer_id(Some("  cam-1 ")).ok().unwrap(), "cam-1");
    let e = require_peer_id(Some("  ")).err().unwrap();
    assert_eq!((e.status, e.body.error.as_str()), (400, "peer_id is required"));
    assert!(require_peer_id(None).is_err());
    assert!(check_offer_type("offer").is_ok());
    let e = check_offer_type("answer").err().unwrap();
    assert_eq!((e.status, e.body.error.as_str()), (400, "expected SDP offer"));
    assert_eq!(local_track_id("cam", TrackKind::Video), "cam-video");
    assert_eq!(local_track_id("cam", TrackKind::Audio), "cam-audio");
    assert!(ends_publication(&PeerState::Failed));
    assert!(ends_publication(&PeerState::Closed));
    assert!(!ends_publication(&PeerState::Disconnected));
    let a = sdp_answer("v=0".into());
    assert_eq!((a.sdp_type.as_str(), a.sdp.as_str()), ("answer", "v=0"));
}

#[test]
fn ports_from_settings() {
    assert_eq!(parse_port(Some("8080"), 1), 8080);
    assert_eq!(parse_port(Some("+8080"), 1), 8080);
    assert_eq!(parse_port(Some("0065535"), 1), 65535);
    assert_eq!(parse_port(Some("65536"), 1), 1);
    assert_eq!(parse_port(Some("99999999999999"), 1), 1);
    assert_eq!(parse_port(Some(""), 1), 1);
    assert_eq!(parse_port(Some("+"), 1), 1);
    assert_eq!(parse_port(Some("12a"), 1), 1);
    assert_eq!(parse_port(Some(" 80"), 1), 1);
    assert_eq!(parse_port(None, 40000), 40000);
    for s in ["0", "1", "+7", "65535", "007"] {
        assert_eq!(parse_port(Some(s), 1), s.parse::<u16>().unwrap());
    }
}

#[test]
fn cleared_track_keeps_publisher_and_other_track() {
    let mut r: RoomRegistry<u32> = RoomRegistry::new();
    r.set_track("room", "cam", TrackKind::Video, 1);
    r.set_track("room", "cam", TrackKind::Audio, 2);
    r.clear_track("room", "cam", TrackKind::Video);
    assert_eq!(r.tracks("room", "cam"), (None, Some(2)));
    assert_eq!(status_of(&r, "room"), vec![("cam".to_string(), false, true)]);
    r.remove_publisher("room", "cam");
    assert!(status_of(&r, "room").is_empty());
    assert_eq!(r.tracks("room", "cam"), (None, None));
}

#[test]
fn received_tracks_by_kind() {
    assert!(matches!(received_track_slot(&CodecKind::Video), Some(TrackKind::Video)));
    assert!(matches!(received_track_slot(&CodecKind::Audio), Some(TrackKind::Audio)));
    assert!(received_track_slot(&CodecKind::Unspecified).is_none());
    assert!(matches!(named_track_kind(&CodecKind::Video), TrackKind::Video));
    assert!(matches!(named_track_kind(&CodecKind::Audio), TrackKind::Audio));
    assert!(matches!(named_track_kind(&CodecKind::Unspecified), TrackKind::Audio));
    assert_eq!(local_track_id("cam", named_track_kind(&CodecKind::Unspecified)), "cam-audio");
}

fn sdp_request(sdp_type: &str, sdp: &str) -> SdpRequest {
    SdpRequest { sdp_type: sdp_type.to_string(), sdp: sdp.to_string(), peer_id: None }
}

#[test]
fn offers_are_read() {
    let sdp = "v=0\r\no=jdoe 2890844526 2890842807 IN IP4 10.47.16.5\r\ns=SDP Seminar\r\nt=0 0\r\n";
    let offer = offer_from_body(&sdp_request("offer", sdp)).ok().unwrap();
    assert_eq!(offer.sdp, sdp);
    let e = offer_from_body(&sdp_request("answer", sdp)).err().unwrap();
    assert_eq!((e.status, e.body.error.as_str()), (400, "expected SDP offer"));
    let e = offer_from_body(&sdp_request("offer", "not a session description")).err().unwrap();
    assert_eq!((e.status, e.body.error.as_str()), (500, "internal error"));
}
