use nao_me_prenda_janja::config::BuiltinRtcConfig;
use nao_me_prenda_janja::pull::{Pull, PullEvent, PullStep};
use nao_me_prenda_janja::sfu::{
    advertised_ip, av1_codec, needs_keyframe, stereo_answer, stream_id, HeaderExtensions,
    PeerState, Sfu, SfuError, TrackWait, ViewerReport, MAX_SESSIONS_PER_USER, MAX_SESSIONS_TOTAL,
};

const OFFER: &str = "v=0\r\no=- 1 2 IN IP4 0.0.0.0\r\ns=-\r\nt=0 0\r\n\
    m=video 9 UDP/TLS/RTP/SAVPF 96\r\na=mid:0\r\n\
    m=audio 9 UDP/TLS/RTP/SAVPF 111\r\na=mid:1\r\n";

fn names(list: &[&str]) -> Vec<String> {
    list.iter().map(|s| s.to_string()).collect()
}

fn pairs(list: &[(&str, &str)]) -> Vec<(String, String)> {
    list.iter().map(|(a, b)| (a.to_string(), b.to_string())).collect()
}

fn open(sfu: &mut Sfu, id: &str, owner: &str) {
    assert!(sfu.new_session(id.to_string(), owner, 1000).is_ok());
}

#[test]
fn relay_books_follow_publish_and_pull() {
    let mut sfu = Sfu::new();
    open(&mut sfu, "pub", "publisher-user");
    assert!(sfu.publish("pub", OFFER, &pairs(&[("0", "test:v"), ("1", "test:a")])).is_ok());
    assert_eq!(sfu.published_track("pub", "0").as_deref(), Some("test:v"));
    assert_eq!(sfu.published_track("pub", "1").as_deref(), Some("test:a"));
    let answer = stereo_answer("a=fmtp:111 minptime=10;useinbandfec=1\r\n".to_string());
    assert!(answer.contains("stereo=1"));
    sfu.register_track("test:v".to_string(), "pub".to_string(), 11);
    sfu.register_track("test:a".to_string(), "pub".to_string(), 12);

    open(&mut sfu, "view", "viewer-user");
    assert!(sfu.subscribe("view", &names(&["test:v", "test:a"])).is_ok());
    let added = vec![
        (Some("0".to_string()), "test:v".to_string()),
        (Some("1".to_string()), "test:a".to_string()),
    ];
    let tracks = sfu.commit_subscribe("view", added).ok().unwrap();
    assert_eq!(tracks, pairs(&[("0", "test:v"), ("1", "test:a")]));

    // A duplicate pull is rejected.
    match sfu.subscribe("view", &names(&["other", "test:v"])) {
        Err(e) => assert_eq!(e.message(), "track test:v already pulled into this session"),
        Ok(_) => panic!("pulled twice"),
    }
    // A track that was let go of may be pulled again.
    sfu.commit_unsubscribe("view", &names(&["test:v"]));
    assert!(sfu.subscribe("view", &names(&["test:v"])).is_ok());
    assert!(sfu.subscribe("view", &names(&["test:a"])).is_err());

    assert!(sfu.close_session("pub"));
    assert!(sfu.close_session("view"));
    assert!(!sfu.close_session("view"));
}

#[test]
fn unknown_sessions_are_reported() {
    let mut sfu = Sfu::new();
    let unknown = "unknown sfu session x";
    assert_eq!(sfu.publish("x", OFFER, &[]).err().unwrap().message(), unknown);
    assert_eq!(sfu.subscribe("x", &[]).err().unwrap().message(), unknown);
    assert_eq!(sfu.unsubscribe("x", &[], &[], OFFER).err().unwrap().message(), unknown);
    assert_eq!(sfu.accept_answer("x", OFFER).err().unwrap().message(), unknown);
    assert_eq!(sfu.published_track("x", "0"), None);
    open(&mut sfu, "x", "ana");
    assert!(sfu.accept_answer("x", OFFER).is_ok());
    sfu.close_session("x");
    assert!(sfu.accept_answer("x", OFFER).is_err());
}

#[test]
fn sections_outside_the_offer_are_turned_down() {
    let mut sfu = Sfu::new();
    open(&mut sfu, "s", "ana");
    let refused = sfu.publish("s", OFFER, &pairs(&[("0", "n:v"), ("10", "n:a"), ("9", "x")]));
    assert_eq!(refused.err().unwrap().message(), "mid 10 not present in the offer");
    // Nothing was remembered.
    assert_eq!(sfu.published_track("s", "0"), None);
}

#[test]
fn the_last_name_for_a_section_counts() {
    let mut sfu = Sfu::new();
    open(&mut sfu, "s", "ana");
    assert!(sfu.publish("s", OFFER, &pairs(&[("0", "a"), ("1", "b"), ("0", "c")])).is_ok());
    assert_eq!(sfu.published_track("s", "0").as_deref(), Some("c"));
    assert_eq!(sfu.published_track("s", "1").as_deref(), Some("b"));
    assert_eq!(sfu.published_track("s", "2"), None);
    assert!(sfu.publish("s", OFFER, &pairs(&[("1", "d")])).is_ok());
    assert_eq!(sfu.published_track("s", "0").as_deref(), Some("c"));
    assert_eq!(sfu.published_track("s", "1").as_deref(), Some("d"));
}

#[test]
fn a_user_opens_a_bounded_number_of_sessions() {
    let mut sfu = Sfu::new();
    for i in 0..MAX_SESSIONS_PER_USER {
        open(&mut sfu, &format!("s{i}"), "ana");
    }
    let refused = sfu.new_session("more".to_string(), "ana", 0);
    assert_eq!(refused.err().unwrap().message(), "per-user sfu session limit reached");
    assert!(matches!(sfu.allocate("ana"), Err(SfuError::UserSessionLimit)));
    assert!(sfu.check_limits("bia").is_ok());
    sfu.close_session("s0");
    assert!(sfu.check_limits("ana").is_ok());
}

#[test]
fn the_relay_opens_a_bounded_number_of_sessions() {
    let mut sfu = Sfu::new();
    for i in 0..MAX_SESSIONS_TOTAL {
        open(&mut sfu, &format!("s{i}"), &format!("u{}", i / MAX_SESSIONS_PER_USER));
    }
    let refused = sfu.new_session("more".to_string(), "late", 0);
    assert_eq!(refused.err().unwrap().message(), "sfu session limit reached");
    assert!(matches!(sfu.allocate("late"), Err(SfuError::SessionLimit)));
}

#[test]
fn session_ids_are_sixteen_random_bytes() {
    let sfu = Sfu::new();
    let a = sfu.allocate("ana").ok().unwrap();
    let b = sfu.allocate("ana").ok().unwrap();
    assert_eq!(a.len(), 32);
    assert_ne!(a, b);
}

#[test]
fn a_pulled_track_without_a_section_is_an_error() {
    let mut sfu = Sfu::new();
    open(&mut sfu, "s", "ana");
    let added = vec![(Some("0".to_string()), "a".to_string()), (None, "b".to_string())];
    let refused = sfu.commit_subscribe("s", added);
    assert_eq!(refused.err().unwrap().message(), "no mid assigned for pulled track b");
    // Nothing counts as pulled.
    assert!(sfu.subscribe("s", &names(&["a", "b"])).is_ok());
    // A session that was closed meanwhile stays closed.
    sfu.close_session("s");
    assert!(sfu.commit_subscribe("s", vec![(Some("0".to_string()), "a".to_string())]).is_ok());
    assert!(sfu.accept_answer("s", OFFER).is_err());
}

#[test]
fn stopped_sections_pick_their_transceivers() {
    let mut sfu = Sfu::new();
    open(&mut sfu, "s", "ana");
    let mids = vec![Some("0".to_string()), None, Some("2".to_string()), Some("1".to_string())];
    let picked = sfu.unsubscribe("s", &mids, &names(&["1", "0", "7"]), OFFER).ok().unwrap();
    assert_eq!(picked.stop, vec![0, 3]);
    let offer = picked.offer.ok().unwrap();
    assert_eq!(offer.sdp, OFFER);
    assert_eq!(offer.sdp_type.to_string(), "offer");
}

#[test]
fn a_pull_waits_for_its_track() {
    let mut sfu = Sfu::new();
    assert!(matches!(sfu.wait_for_track("t:v", 5, 10), TrackWait::Retry));
    match sfu.wait_for_track("t:v", 10, 10) {
        TrackWait::GaveUp(e) => assert_eq!(e.message(), "published track t:v not available"),
        _ => panic!("still waiting"),
    }
    sfu.register_track("t:v".to_string(), "s".to_string(), 7);
    assert!(matches!(sfu.wait_for_track("t:v", 10, 10), TrackWait::Ready));
    assert_eq!(sfu.find_track("t:v"), Some(("s".to_string(), 7)));
    sfu.register_track("t:v".to_string(), "other".to_string(), 8);
    assert_eq!(sfu.find_track("t:v"), Some(("other".to_string(), 8)));
    sfu.unregister_track("t:v");
    assert_eq!(sfu.find_track("t:v"), None);
    sfu.unregister_track("t:v");
}

#[test]
fn dead_sessions_are_swept() {
    let mut sfu = Sfu::new();
    for id in ["new", "connecting", "connected", "disconnected", "failed", "closed", "unlisted"] {
        open(&mut sfu, id, "ana");
    }
    let states: Vec<(String, PeerState)> = vec![
        ("new".to_string(), PeerState::New),
        ("connecting".to_string(), PeerState::Connecting),
        ("connected".to_string(), PeerState::Connected),
        ("disconnected".to_string(), PeerState::Disconnected),
        ("failed".to_string(), PeerState::Failed),
        ("closed".to_string(), PeerState::Closed),
    ];
    assert_eq!(sfu.sweep_stale_sessions(&states, 1120), vec!["failed", "closed"]);
    assert_eq!(sfu.sweep_stale_sessions(&states, 1121), vec!["new", "connecting"]);
    assert!(sfu.sweep_stale_sessions(&states, 1_000_000).is_empty());
    assert!(sfu.accept_answer("connected", OFFER).is_ok());
    assert!(sfu.accept_answer("unlisted", OFFER).is_ok());
    assert!(sfu.accept_answer("new", OFFER).is_err());
}

#[test]
fn terminal_states_end_a_session() {
    assert!(PeerState::Failed.is_terminal());
    assert!(PeerState::Closed.is_terminal());
    assert!(!PeerState::Disconnected.is_terminal());
    assert!(!PeerState::Unspecified.is_stale(0, u64::MAX));
    assert!(!PeerState::New.is_stale(u64::MAX, 0));
}

#[test]
fn answers_ask_for_stereo() {
    assert_eq!(
        stereo_answer("a;useinbandfec=1\r\nb;useinbandfec=1".to_string()),
        "a;useinbandfec=1;stereo=1;sprop-stereo=1\r\nb;useinbandfec=1;stereo=1;sprop-stereo=1"
    );
    assert_eq!(stereo_answer("stereo=1;useinbandfec=1".to_string()), "stereo=1;useinbandfec=1");
    assert_eq!(stereo_answer("no audio".to_string()), "no audio");
    let once = stereo_answer("useinbandfec=1".to_string());
    assert_eq!(stereo_answer(once.clone()), once);
}

#[test]
fn track_names_tell_kind_and_share() {
    assert!(needs_keyframe("share:v"));
    assert!(!needs_keyframe("share:a"));
    assert_eq!(stream_id("share:v"), "janja-share");
    assert_eq!(stream_id("plain"), "janja-plain");
}

#[test]
fn header_extensions_are_stripped() {
    let mut header = HeaderExtensions {
        extension: true,
        extension_profile: 0xbede,
        extensions: vec![(1, vec![2, 3])],
    };
    header.strip();
    assert!(!header.extension);
    assert_eq!(header.extension_profile, 0);
    assert!(header.extensions.is_empty());
}

#[test]
fn loss_reports_ask_for_keyframes() {
    assert!(ViewerReport::PictureLoss.wants_keyframe());
    assert!(ViewerReport::FullIntraRequest.wants_keyframe());
    assert!(!ViewerReport::Other.wants_keyframe());
}

#[test]
fn av1_is_offered_on_its_payload_type() {
    let codec = av1_codec();
    assert_eq!(codec.mime_type, webrtc::api::media_engine::MIME_TYPE_AV1);
    assert_eq!(codec.clock_rate, 90000);
    assert_eq!(codec.payload_type, 45);
    assert_eq!(codec.rtcp_feedback.len(), 4);
    assert_eq!(codec.rtcp_feedback[3], ("nack", "pli"));
}

#[test]
fn offers_that_cannot_be_read_are_turned_down() {
    let mut sfu = Sfu::new();
    open(&mut sfu, "s", "ana");
    // It has the section, but it is no session description.
    let broken = "v=0\r\nx=1\r\na=mid:0\r\n";
    let refused = sfu.publish("s", broken, &pairs(&[("0", "n:v")])).err().unwrap();
    assert!(matches!(refused, SfuError::BadOffer(_)));
    assert_eq!(refused.message(), "bad offer sdp: SdpInvalidSyntax: x=");
    // The section is remembered all the same.
    assert_eq!(sfu.published_track("s", "0").as_deref(), Some("n:v"));
    let offer = sfu.publish("s", OFFER, &pairs(&[("0", "n:v")])).ok().unwrap();
    assert_eq!(offer.sdp, OFFER);
    assert_eq!(offer.sdp_type.to_string(), "offer");
}

#[test]
fn stopping_goes_on_where_the_offer_cannot_be_read() {
    let mut sfu = Sfu::new();
    open(&mut sfu, "s", "ana");
    let mids = vec![Some("0".to_string())];
    let picked = sfu.unsubscribe("s", &mids, &names(&["0"]), "nonsense").ok().unwrap();
    assert_eq!(picked.stop, vec![0]);
    assert!(matches!(picked.offer, Err(SfuError::BadOffer(_))));
}

#[test]
fn answers_that_cannot_be_read_are_turned_down() {
    let mut sfu = Sfu::new();
    open(&mut sfu, "s", "ana");
    let refused = sfu.accept_answer("s", "v=1\r\n").err().unwrap();
    assert!(matches!(refused, SfuError::BadAnswer(_)));
    assert_eq!(refused.message(), "bad answer sdp: SdpInvalidSyntax: 1");
    let answer = sfu.accept_answer("s", OFFER).ok().unwrap();
    assert_eq!(answer.sdp, OFFER);
    assert_eq!(answer.sdp_type.to_string(), "answer");
    // A session that is not there is reported first.
    assert!(matches!(sfu.accept_answer("t", "v=1"), Err(SfuError::UnknownSession(_))));
}

#[test]
fn a_pull_looks_everything_up_before_it_adds_anything() {
    let mut pull = Pull::new(&names(&["a:v", "b:v"]));
    assert!(matches!(pull.step, PullStep::LookUp(0)));
    pull.advance(PullEvent::LookedUp(TrackWait::Retry));
    assert!(matches!(pull.step, PullStep::LookUp(0)));
    pull.advance(PullEvent::LookedUp(TrackWait::Ready));
    assert!(matches!(pull.step, PullStep::LookUp(1)));
    // What does not belong to the step changes nothing.
    pull.advance(PullEvent::Attached);
    assert!(matches!(pull.step, PullStep::LookUp(1)));
    pull.advance(PullEvent::LookedUp(TrackWait::Ready));
    assert!(matches!(pull.step, PullStep::Attach(0)));
    pull.advance(PullEvent::Attached);
    assert!(matches!(pull.step, PullStep::Attach(1)));
    pull.advance(PullEvent::Attached);
    assert!(matches!(pull.step, PullStep::Offer));
}

#[test]
fn a_pull_of_a_dead_track_adds_nothing() {
    let sfu = Sfu::new();
    let mut pull = Pull::new(&names(&["a:v", "b:v"]));
    pull.advance(PullEvent::LookedUp(TrackWait::Ready));
    pull.advance(PullEvent::LookedUp(sfu.wait_for_track("b:v", 3000, 3000)));
    match &pull.step {
        PullStep::Refuse(e) => assert_eq!(e.message(), "published track b:v not available"),
        _ => panic!("not refused"),
    }
    pull.advance(PullEvent::LookedUp(TrackWait::Ready));
    assert!(matches!(pull.step, PullStep::Refuse(_)));
}

#[test]
fn a_failed_addition_takes_the_others_back() {
    let mut pull = Pull::new(&names(&["a:v", "b:v", "c:v"]));
    for _ in 0..3 {
        pull.advance(PullEvent::LookedUp(TrackWait::Ready));
    }
    pull.advance(PullEvent::Attached);
    pull.advance(PullEvent::Attached);
    pull.advance(PullEvent::AttachFailed("closed".to_string()));
    match &pull.step {
        PullStep::Undo { count, error } => {
            assert_eq!(*count, 2);
            assert_eq!(error.message(), "add track c:v: closed");
        }
        _ => panic!("not undone"),
    }
}

#[test]
fn a_pull_of_nothing_makes_its_offer() {
    assert!(matches!(Pull::new(&[]).step, PullStep::Offer));
}

#[test]
fn a_granted_pull_starts_with_its_first_track() {
    let mut sfu = Sfu::new();
    open(&mut sfu, "s", "ana");
    let pull = sfu.subscribe("s", &names(&["a:v", "a:a"])).ok().unwrap();
    assert_eq!(pull.names, names(&["a:v", "a:a"]));
    assert!(matches!(pull.step, PullStep::LookUp(0)));
}

#[test]
fn a_configured_ip_wins_over_a_detected_one() {
    let mut cfg = BuiltinRtcConfig::default();
    assert_eq!(advertised_ip(&cfg, None), None);
    assert_eq!(advertised_ip(&cfg, Some(" 203.0.113.7\n")).as_deref(), Some("203.0.113.7"));
    cfg.public_ip = Some("127.0.0.1".to_string());
    assert_eq!(advertised_ip(&cfg, None).as_deref(), Some("127.0.0.1"));
    assert_eq!(advertised_ip(&cfg, Some("203.0.113.7")).as_deref(), Some("127.0.0.1"));
}
