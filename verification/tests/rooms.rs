use nao_me_prenda_janja::auth::{Claims, Role};
use nao_me_prenda_janja::config::{
    AuthConfig, BuiltinRtcConfig, Config, DiscordConfig, RtcBackend, RtcConfig, ServerConfig,
};
use nao_me_prenda_janja::state::{
    AppState, Delivery, Effect, Peer, Room, RoomSlot, RtcSessionOwner, ServerMsg, Share,
    SHARE_CODE_TTL_SECS,
};
use nao_me_prenda_janja::ws::{
    cleanup, join, set_watching, stop_share, take_in, validate_watching, JoinRefusal,
    MAX_WATCHING_IDS, MAX_WS_CONNECTIONS_PER_ROOM, MAX_WS_CONNECTIONS_PER_USER,
    MAX_WS_CONNECTIONS_TOTAL,
};

fn config(backend: RtcBackend) -> Config {
    Config {
        discord: DiscordConfig {
            client_id: "id".to_string(),
            client_secret: "secret".to_string(),
            bot_token: "bot".to_string(),
        },
        cloudflare: None,
        rtc: RtcConfig { backend, builtin: BuiltinRtcConfig::default() },
        server: ServerConfig { port: 1, public_domain: String::new() },
        auth: AuthConfig { session_secret: String::new() },
    }
}

fn claims(user: &str, inst: &str) -> Claims {
    Claims {
        sub: user.to_string(),
        name: user.to_string(),
        avatar: None,
        inst: inst.to_string(),
        chan: None,
        guild: None,
        role: Role::Member,
        exp: 0,
    }
}

fn share(id: &str, conn_id: u64) -> Share {
    Share {
        id: id.to_string(),
        user_id: "user".to_string(),
        username: "name".to_string(),
        avatar: None,
        has_audio: true,
        started_at: 1,
        publisher_session_id: format!("session-{id}"),
        conn_id,
    }
}

fn room_with_share() -> Room {
    let mut room = Room::new();
    room.shares.push(Share {
        id: "share".into(),
        user_id: "user".into(),
        username: "name".into(),
        avatar: None,
        has_audio: true,
        started_at: 1,
        publisher_session_id: "session".into(),
        conn_id: 1,
    });
    room
}

/// Two connections in one room; the first owns two shares, the second one.
fn busy(backend: RtcBackend) -> AppState {
    let mut st = AppState::new(config(backend));
    assert!(take_in(&mut st, &claims("ana", "room")).is_ok());
    assert!(take_in(&mut st, &claims("bia", "room")).is_ok());
    st.rooms[0].room.shares = vec![share("a", 1), share("b", 2), share("c", 1)];
    st
}

fn describe(effect: &Effect) -> String {
    match effect {
        Effect::Deliver(d) => describe_delivery(d),
        Effect::CloseSession(id) => format!("close {id}"),
        Effect::RevokeConnection { instance_id, conn_id } => {
            format!("revoke {instance_id} {conn_id}")
        }
    }
}

fn describe_delivery(d: &Delivery) -> String {
    match &d.msg {
        ServerMsg::Hello { conn_id, shares } => format!("hello {conn_id} {}", shares.len()),
        ServerMsg::ShareStarted { share } => format!("started {}", share.id),
        ServerMsg::ShareEnded { share_id } => format!("ended {share_id} to {:?}", d.to),
        ServerMsg::ViewerCounts { share_id, video, audio } => {
            format!("counts {share_id} {video} {audio} to {:?}", d.to)
        }
    }
}

fn told(effects: &[Effect]) -> Vec<String> {
    effects.iter().map(describe).collect()
}

fn ids(list: &[&str]) -> Vec<String> {
    list.iter().map(|s| s.to_string()).collect()
}

#[test]
fn watching_state_accepts_only_bounded_live_share_ids() {
    let room = room_with_share();
    assert!(validate_watching(&room, vec!["share".into()], vec!["share".into()]).is_some());
    assert!(validate_watching(&room, vec!["unknown".into()], vec![]).is_none());
    assert!(validate_watching(&room, vec!["share".into(); MAX_WATCHING_IDS + 1], vec![]).is_none());
}

#[test]
fn watching_lists_are_checked_one_by_one() {
    let mut room = room_with_share();
    let long = "x".repeat(65);
    let fits = "y".repeat(64);
    room.shares.push(share(&long, 1));
    room.shares.push(share(&fits, 1));
    assert!(validate_watching(&room, vec![], ids(&["unknown"])).is_none());
    assert!(validate_watching(&room, vec![long.clone()], vec![]).is_none());
    assert!(validate_watching(&room, vec![], vec![long]).is_none());
    assert!(validate_watching(&room, vec![fits], vec![]).is_some());
    assert!(validate_watching(&room, vec![], vec![]).is_some());
    // The bound is in bytes.
    let wide = "\u{e9}".repeat(33);
    room.shares.push(share(&wide, 1));
    assert!(validate_watching(&room, vec![wide], vec![]).is_none());
    let full = vec!["share".to_string(); MAX_WATCHING_IDS];
    let (video, audio) = validate_watching(&room, full.clone(), full).unwrap();
    assert_eq!(video, vec!["share"]);
    assert_eq!(audio, vec!["share"]);
}

#[test]
fn joining_greets_with_the_live_shares() {
    let mut st = busy(RtcBackend::Builtin);
    let (conn_id, hello) = take_in(&mut st, &claims("caio", "room")).ok().unwrap();
    assert_eq!(conn_id, 3);
    match hello {
        ServerMsg::Hello { conn_id, shares } => {
            assert_eq!(conn_id, 3);
            let listed: Vec<&str> = shares.iter().map(|s| s.id.as_str()).collect();
            assert_eq!(listed, vec!["a", "b", "c"]);
        }
        _ => panic!("no greeting"),
    }
    assert_eq!(st.rooms.len(), 1);
    assert_eq!(st.rooms[0].room.peers[2].user_id, "caio");
    assert!(st.rooms[0].room.peers[2].watching_video.is_empty());
    assert_eq!(st.next_conn_id, 4);
}

#[test]
fn a_user_holds_a_bounded_number_of_connections() {
    let mut st = AppState::new(config(RtcBackend::Cloudflare));
    for i in 0..MAX_WS_CONNECTIONS_PER_USER {
        assert!(take_in(&mut st, &claims("ana", &format!("room{i}"))).is_ok());
    }
    let refused = take_in(&mut st, &claims("ana", "elsewhere"));
    assert!(matches!(refused, Err(JoinRefusal::UserFull)));
    assert_eq!(JoinRefusal::UserFull.reason(), "too many connections for this user");
    assert!(take_in(&mut st, &claims("bia", "elsewhere")).is_ok());
    // The refused attempt used up an id as well.
    assert_eq!(st.next_conn_id, 11);
    cleanup(&mut st, "room0", 1);
    assert!(take_in(&mut st, &claims("ana", "elsewhere")).is_ok());
}

#[test]
fn a_room_holds_a_bounded_number_of_connections() {
    let mut st = AppState::new(config(RtcBackend::Cloudflare));
    for i in 0..MAX_WS_CONNECTIONS_PER_ROOM {
        assert!(take_in(&mut st, &claims(&format!("u{i}"), "room")).is_ok());
    }
    let refused = take_in(&mut st, &claims("late", "room"));
    assert!(matches!(refused, Err(JoinRefusal::ActivityFull)));
    assert_eq!(JoinRefusal::ActivityFull.reason(), "activity connection capacity reached");
    assert!(take_in(&mut st, &claims("late", "other")).is_ok());
}

#[test]
fn the_server_holds_a_bounded_number_of_connections() {
    let mut st = AppState::new(config(RtcBackend::Cloudflare));
    for i in 0..MAX_WS_CONNECTIONS_TOTAL {
        assert!(take_in(&mut st, &claims(&format!("u{i}"), &format!("r{}", i % 8))).is_ok());
    }
    let refused = take_in(&mut st, &claims("late", "new"));
    assert!(matches!(refused, Err(JoinRefusal::ServerFull)));
    assert_eq!(JoinRefusal::ServerFull.reason(), "server connection capacity reached");
    assert_eq!(st.rooms.len(), 8);
}

#[test]
fn joining_under_a_known_id_replaces_the_peer() {
    let mut st = AppState::new(config(RtcBackend::Cloudflare));
    assert!(join(&mut st, &claims("ana", "room"), 5).is_ok());
    assert!(join(&mut st, &claims("bia", "room"), 5).is_ok());
    assert_eq!(st.rooms[0].room.peers.len(), 1);
    assert_eq!(st.rooms[0].room.peers[0].user_id, "bia");
}

#[test]
fn connection_ids_start_over_after_the_largest() {
    let mut st = AppState::new(config(RtcBackend::Cloudflare));
    assert_eq!(st.allocate_conn_id(), 1);
    assert_eq!(st.allocate_conn_id(), 2);
    st.next_conn_id = u64::MAX;
    assert_eq!(st.allocate_conn_id(), u64::MAX);
    assert_eq!(st.allocate_conn_id(), 0);
}

#[test]
fn only_the_owner_stops_a_share() {
    let mut st = busy(RtcBackend::Builtin);
    assert!(stop_share(&mut st, "room", 2, "a").is_empty());
    assert!(stop_share(&mut st, "elsewhere", 1, "a").is_empty());
    assert!(stop_share(&mut st, "room", 1, "unknown").is_empty());
    assert_eq!(st.rooms[0].room.shares.len(), 3);
    let effects = stop_share(&mut st, "room", 1, "a");
    assert_eq!(told(&effects), vec!["ended a to [1, 2]", "close session-a"]);
    assert_eq!(st.rooms[0].room.shares.len(), 2);
    assert!(stop_share(&mut st, "room", 1, "a").is_empty());
}

#[test]
fn cloudflare_collects_its_own_sessions() {
    let mut st = busy(RtcBackend::Cloudflare);
    assert_eq!(told(&stop_share(&mut st, "room", 2, "b")), vec!["ended b to [1, 2]"]);
    assert_eq!(st.reap_share(Some(share("x", 1))), None);
    let builtin = AppState::new(config(RtcBackend::Builtin));
    assert_eq!(builtin.reap_share(Some(share("x", 1))), Some("session-x".to_string()));
    assert_eq!(builtin.reap_share(None), None);
}

#[test]
fn publishers_learn_who_watches() {
    let mut st = busy(RtcBackend::Builtin);
    let told = set_watching(&mut st, "room", 2, ids(&["a", "a", "c"]), ids(&["b"])).unwrap();
    let told: Vec<String> = told.iter().map(describe_delivery).collect();
    assert_eq!(told, vec!["counts a 1 0 to [1]", "counts b 0 1 to [2]", "counts c 1 0 to [1]"]);
    let told = set_watching(&mut st, "room", 1, ids(&["a"]), vec![]).unwrap();
    assert_eq!(describe_delivery(&told[0]), "counts a 2 0 to [1]");
    // The new list replaces the old one.
    let told = set_watching(&mut st, "room", 2, vec![], vec![]).unwrap();
    assert_eq!(describe_delivery(&told[0]), "counts a 1 0 to [1]");
    assert_eq!(describe_delivery(&told[1]), "counts b 0 0 to [2]");
}

#[test]
fn invalid_subscriptions_change_nothing() {
    let mut st = busy(RtcBackend::Builtin);
    assert!(set_watching(&mut st, "room", 2, ids(&["a"]), vec![]).is_some());
    assert!(set_watching(&mut st, "room", 2, ids(&["nope"]), vec![]).is_none());
    assert!(set_watching(&mut st, "room", 9, ids(&["a"]), vec![]).is_none());
    assert!(set_watching(&mut st, "nowhere", 2, ids(&["a"]), vec![]).is_none());
    assert_eq!(st.rooms[0].room.peers[1].watching_video, vec!["a"]);
}

#[test]
fn shares_die_with_their_connection() {
    let mut st = busy(RtcBackend::Builtin);
    assert!(set_watching(&mut st, "room", 1, ids(&["b"]), vec![]).is_some());
    let effects = cleanup(&mut st, "room", 1);
    assert_eq!(
        told(&effects),
        vec![
            "ended a to [2]",
            "close session-a",
            "ended c to [2]",
            "close session-c",
            "counts b 0 0 to [2]",
            "revoke room 1",
        ]
    );
    assert_eq!(st.rooms[0].room.peers.len(), 1);
    assert_eq!(st.rooms[0].room.shares.len(), 1);
    assert_eq!(st.rooms[0].room.shares[0].id, "b");
}

#[test]
fn an_empty_room_is_given_up() {
    let mut st = busy(RtcBackend::Cloudflare);
    cleanup(&mut st, "room", 1);
    let effects = cleanup(&mut st, "room", 2);
    assert_eq!(told(&effects), vec!["ended b to []", "revoke room 2"]);
    assert!(st.rooms.is_empty());
    assert_eq!(told(&cleanup(&mut st, "room", 2)), vec!["revoke room 2"]);
}

#[test]
fn a_share_whose_publisher_is_gone_keeps_its_room() {
    let mut st = AppState::new(config(RtcBackend::Builtin));
    let mut room = room_with_share();
    room.add_peer(Peer {
        conn_id: 7,
        user_id: "ana".to_string(),
        role: Role::Publisher,
        watching_video: ids(&["share"]),
        watching_audio: vec![],
    });
    st.rooms.push(RoomSlot { instance_id: "room".to_string(), room });
    assert_eq!(told(&cleanup(&mut st, "room", 7)), vec!["revoke room 7"]);
    assert_eq!(st.rooms.len(), 1);
    assert!(st.rooms[0].room.peers.is_empty());
}

#[test]
fn leaving_undoes_joining_elsewhere_too() {
    let mut st = busy(RtcBackend::Builtin);
    let (conn_id, _) = take_in(&mut st, &claims("caio", "room")).ok().unwrap();
    cleanup(&mut st, "room", conn_id);
    let left: Vec<u64> = st.rooms[0].room.peers.iter().map(|p| p.conn_id).collect();
    assert_eq!(left, vec![1, 2]);
    assert_eq!(st.rooms[0].room.shares.len(), 3);
    let (conn_id, _) = take_in(&mut st, &claims("caio", "new")).ok().unwrap();
    assert_eq!(st.rooms.len(), 2);
    cleanup(&mut st, "new", conn_id);
    assert_eq!(st.rooms.len(), 1);
}

#[test]
fn ending_a_share_returns_it_with_the_notice() {
    let mut room = room_with_share();
    assert!(room.end_share("unknown").is_none());
    let (ended, notice) = room.end_share("share").unwrap();
    assert_eq!(ended.publisher_session_id, "session");
    assert_eq!(describe_delivery(&notice), "ended share to []");
    assert!(room.shares.is_empty());
}

#[test]
fn a_broadcast_goes_to_everyone() {
    let st = busy(RtcBackend::Builtin);
    let d = st.rooms[0].room.broadcast(ServerMsg::ShareStarted { share: share("n", 2) });
    assert_eq!(d.to, vec![1, 2]);
    assert_eq!(describe_delivery(&d), "started n");
}

#[test]
fn share_codes_are_single_use() {
    let mut st = AppState::new(config(RtcBackend::Builtin));
    st.add_share_code("code".to_string(), claims("ana", "room"), 1000);
    st.add_share_code("other".to_string(), claims("bia", "room"), 1000);
    assert!(st.claim_share_code("unknown", 1000).is_none());
    assert_eq!(st.claim_share_code("code", 1001).unwrap().sub, "ana");
    assert!(st.claim_share_code("code", 1001).is_none());
    assert_eq!(st.claim_share_code("other", 1001).unwrap().sub, "bia");
}

#[test]
fn share_codes_expire_in_five_minutes() {
    assert_eq!(SHARE_CODE_TTL_SECS, 5 * 60);
    let mut st = AppState::new(config(RtcBackend::Builtin));
    st.add_share_code("a".to_string(), claims("ana", "room"), 1000);
    st.add_share_code("b".to_string(), claims("ana", "room"), 1000);
    assert!(st.claim_share_code("a", 1300).is_some());
    assert!(st.claim_share_code("b", 1301).is_none());
    // An expired code is gone as well.
    assert!(st.claim_share_code("b", 1000).is_none());
}

#[test]
fn foreign_rtc_sessions_are_out_of_reach() {
    let mut st = AppState::new(config(RtcBackend::Cloudflare));
    let owner = RtcSessionOwner {
        user_id: "ana".to_string(),
        instance_id: "room".to_string(),
        created_at: 1000,
    };
    st.own_rtc_session("s".to_string(), owner);
    assert!(st.owns_rtc_session("s", "ana", "room"));
    assert!(!st.owns_rtc_session("s", "bia", "room"));
    assert!(!st.owns_rtc_session("s", "ana", "other"));
    assert!(!st.owns_rtc_session("t", "ana", "room"));
}

#[test]
fn old_rtc_sessions_are_forgotten() {
    let mut st = AppState::new(config(RtcBackend::Cloudflare));
    for (id, created_at) in [("x", 1000u64), ("y", 5000), ("z", 900)] {
        let owner = RtcSessionOwner {
            user_id: "ana".to_string(),
            instance_id: "room".to_string(),
            created_at,
        };
        st.own_rtc_session(id.to_string(), owner);
    }
    st.prune_rtc_sessions(1000 + 86400);
    assert!(st.owns_rtc_session("x", "ana", "room"));
    assert!(!st.owns_rtc_session("z", "ana", "room"));
    st.prune_rtc_sessions(1001 + 86400);
    assert!(!st.owns_rtc_session("x", "ana", "room"));
    assert!(st.owns_rtc_session("y", "ana", "room"));
}
