use nao_me_prenda_janja::config::{
    AuthConfig, CloudflareConfig, Config, DiscordConfig, RtcConfig, ServerConfig,
};
use nao_me_prenda_janja::discord::{
    check_instance_participant, exchange_code, fetch_user, instance_checked, participation,
    token_received, user_received, ActivityInstance, ActivityLocation, DiscordUser, TokenResponse,
};
use nao_me_prenda_janja::http::{is_success, ApiError, Call, Credentials, Method, Request, Sent};
use nao_me_prenda_janja::realtime::{
    base_url, begin_force_close, close_tracks, continue_force_close, force_close_tracks,
    new_session, publish_tracks, pull_tracks,
    renegotiate, renegotiated, session_opened, tracks_added, tracks_closed, tracks_force_closed,
    ForceClose, LocalTrack, NewSession, RemoteTrack, SdpKind, SessionDescription, TrackEntry, TrackResult,
    TracksResponse,
};

fn config() -> Config {
    Config {
        discord: DiscordConfig {
            client_id: "123".to_string(),
            client_secret: "hush".to_string(),
            bot_token: "b0t".to_string(),
        },
        cloudflare: Some(CloudflareConfig {
            app_id: "app".to_string(),
            app_secret: "key".to_string(),
        }),
        rtc: RtcConfig::default(),
        server: ServerConfig { port: 1, public_domain: String::new() },
        auth: AuthConfig { session_secret: String::new() },
    }
}

fn ids(list: &[&str]) -> Vec<String> {
    list.iter().map(|s| s.to_string()).collect()
}

fn answered<T>(status: u16, body: &str, parsed: Option<T>) -> Sent<T> {
    Sent::Answered { status, body: body.to_string(), parsed }
}

fn line(request: &Request) -> String {
    let method = match request.method {
        Method::Get => "GET",
        Method::Post => "POST",
        Method::Put => "PUT",
    };
    let credentials = match &request.credentials {
        Credentials::Anonymous => String::new(),
        Credentials::Bearer(token) => format!(" Bearer {token}"),
        Credentials::Header(value) => format!(" {value}"),
    };
    format!("{method} {}{credentials}", request.url)
}

fn response() -> TracksResponse {
    TracksResponse {
        session_description: Some(SessionDescription { sdp: "answer".to_string() }),
        tracks: vec![track(None, None), track(None, Some("ignored"))],
        requires_immediate_renegotiation: false,
        error_code: None,
        error_description: None,
    }
}

fn track(code: Option<&str>, description: Option<&str>) -> TrackResult {
    TrackResult {
        mid: None,
        track_name: None,
        error_code: code.map(str::to_string),
        error_description: description.map(str::to_string),
    }
}

fn instance(users: &[&str]) -> ActivityInstance {
    ActivityInstance {
        users: ids(users),
        location: Some(ActivityLocation {
            channel_id: Some("c".to_string()),
            guild_id: None,
        }),
    }
}

fn message<T>(r: Result<T, ApiError>) -> String {
    r.err().expect("an error").message()
}

#[test]
fn code_exchange_sends_the_form() {
    let sent = exchange_code(&config(), "c0de");
    assert_eq!(line(&sent.request), "POST https://discord.com/api/v10/oauth2/token");
    let form: Vec<String> = sent.form.iter().map(|(k, v)| format!("{k}={v}")).collect();
    assert_eq!(
        form,
        vec!["client_id=123", "client_secret=hush", "grant_type=authorization_code", "code=c0de"]
    );
}

#[test]
fn code_exchange_yields_the_token() {
    let token = || TokenResponse { access_token: "t".to_string() };
    let ok = token_received(answered(200, "", Some(token())));
    assert_eq!(ok.ok().unwrap().access_token, "t");
    assert_eq!(
        message(token_received(answered(400, "bad code", Some(token())))),
        "discord token exchange failed (400 Bad Request): bad code"
    );
    assert_eq!(
        message(token_received(answered(200, "x", None))),
        "discord token response parse"
    );
    assert_eq!(message(token_received(Sent::Unreachable)), "discord token exchange request");
}

#[test]
fn user_is_fetched_with_the_token() {
    assert_eq!(line(&fetch_user("tok")), "GET https://discord.com/api/v10/users/@me Bearer tok");
    let user = DiscordUser {
        id: "1".to_string(),
        username: "ana".to_string(),
        global_name: None,
        avatar: None,
    };
    assert_eq!(user_received(answered(200, "", Some(user))).ok().unwrap().id, "1");
    assert_eq!(
        message(user_received(answered(401, "secret details", None))),
        "discord users/@me failed (401 Unauthorized)"
    );
    assert_eq!(message(user_received(answered(204, "", None))), "discord user parse");
    assert_eq!(message(user_received(Sent::Unreachable)), "discord users/@me request");
}

#[test]
fn global_names_come_first() {
    let mut user = DiscordUser {
        id: "1".to_string(),
        username: "ana".to_string(),
        global_name: Some("Ana B".to_string()),
        avatar: None,
    };
    assert_eq!(user.display_name(), "Ana B");
    user.global_name = None;
    assert_eq!(user.display_name(), "ana");
}

#[test]
fn participants_are_looked_up_by_the_bot() {
    assert_eq!(
        line(&check_instance_participant(&config(), "i-9")),
        "GET https://discord.com/api/v10/applications/123/activity-instances/i-9 Bot b0t"
    );
    let check = instance_checked(answered(200, "", Some(instance(&["7", "42"]))), "42").ok().unwrap();
    assert!(check.is_participant);
    assert_eq!(check.location.unwrap().channel_id.as_deref(), Some("c"));
    let check = instance_checked(answered(200, "", Some(instance(&["7", "421"]))), "42");
    assert_eq!(participation(&check), Some(false));
    let check = instance_checked(answered(404, "", Some(instance(&["42"]))), "42").ok().unwrap();
    assert!(!check.is_participant);
    assert!(check.location.is_none());
}

#[test]
fn failed_lookups_say_nothing_of_participation() {
    let failed = instance_checked(answered(503, "down", Some(instance(&["42"]))), "42");
    assert_eq!(participation(&failed), None);
    assert_eq!(message(failed), "discord activity-instance failed (503 Service Unavailable)");
    assert_eq!(
        message(instance_checked(answered(200, "", None), "42")),
        "activity-instance parse"
    );
    assert_eq!(
        message(instance_checked(Sent::Unreachable, "42")),
        "discord activity-instance request"
    );
}

#[test]
fn success_is_two_hundred_to_two_hundred_ninety_nine() {
    assert!(!is_success(199));
    assert!(is_success(200));
    assert!(is_success(299));
    assert!(!is_success(300));
    let odd = renegotiated(answered(599, "?", Some(())));
    assert_eq!(
        message(odd),
        "cloudflare renegotiate failed (599 <unknown status code>): ?"
    );
}

#[test]
fn sessions_are_opened_at_cloudflare() {
    assert_eq!(base_url(&config()), "https://rtc.live.cloudflare.com/v1/apps/app");
    assert_eq!(
        line(&new_session(&config())),
        "POST https://rtc.live.cloudflare.com/v1/apps/app/sessions/new Bearer key"
    );
    let opened = |code: Option<&str>| NewSession {
        session_id: "s1".to_string(),
        error_code: code.map(str::to_string),
    };
    assert_eq!(session_opened(answered(201, "", Some(opened(None)))).ok().unwrap(), "s1");
    assert_eq!(
        message(session_opened(answered(200, "", Some(opened(Some("quota")))))),
        "cloudflare sessions/new error: quota"
    );
    assert_eq!(
        message(session_opened(answered(500, "oops", None))),
        "cloudflare sessions/new failed (500 Internal Server Error): oops"
    );
    assert_eq!(message(session_opened(answered(200, "", None))), "sessions/new parse");
    assert_eq!(message(session_opened(Sent::Unreachable)), "cloudflare sessions/new request");
}

#[test]
fn publishing_sends_the_offer_and_the_tracks() {
    let tracks = [LocalTrack { location: "local", mid: "0", track_name: "s:v".to_string() }];
    let sent = publish_tracks(&config(), "s1", "offer", &tracks);
    assert_eq!(
        line(&sent.request),
        "POST https://rtc.live.cloudflare.com/v1/apps/app/sessions/s1/tracks/new Bearer key"
    );
    let (kind, sdp) = sent.document.session_description.unwrap();
    assert!(kind == SdpKind::Offer);
    assert_eq!(sdp, "offer");
    assert!(sent.document.force.is_none());
    match &sent.document.tracks.unwrap()[0] {
        TrackEntry::Local { location, mid, track_name } => {
            assert_eq!((*location, mid.as_str(), track_name.as_str()), ("local", "0", "s:v"));
        }
        _ => panic!("not a local track"),
    }
}

#[test]
fn pulling_names_the_remote_tracks() {
    let tracks = [RemoteTrack {
        location: "remote",
        session_id: "p".to_string(),
        track_name: "s:v".to_string(),
    }];
    let sent = pull_tracks(&config(), "s1", &tracks);
    assert!(line(&sent.request).contains("/sessions/s1/tracks/new"));
    assert!(sent.document.session_description.is_none());
    match &sent.document.tracks.unwrap()[0] {
        TrackEntry::Remote { location, session_id, track_name } => {
            assert_eq!((*location, session_id.as_str(), track_name.as_str()), ("remote", "p", "s:v"));
        }
        _ => panic!("not a remote track"),
    }
}

#[test]
fn errors_of_new_tracks_are_reported() {
    assert_eq!(tracks_added(answered(200, "", Some(response()))).ok().unwrap().tracks.len(), 2);
    let mut failed = response();
    failed.error_code = Some("e1".to_string());
    assert_eq!(
        message(tracks_added(answered(200, "", Some(failed)))),
        "cloudflare tracks/new error: e1 "
    );
    let mut failed = response();
    failed.error_code = Some("e1".to_string());
    failed.error_description = Some("why".to_string());
    assert_eq!(
        message(tracks_added(answered(200, "", Some(failed)))),
        "cloudflare tracks/new error: e1 why"
    );
    assert_eq!(
        message(tracks_added(answered(409, "c", None))),
        "cloudflare tracks/new failed (409 Conflict): c"
    );
    assert_eq!(message(tracks_added(answered(200, "", None))), "tracks/new parse");
    assert_eq!(message(tracks_added(Sent::Unreachable)), "cloudflare tracks/new request");
    // An error of one track does not fail a pull.
    let mut partial = response();
    partial.tracks.push(track(Some("e2"), None));
    assert!(tracks_added(answered(200, "", Some(partial))).is_ok());
}

#[test]
fn closing_sends_the_offer_and_the_sections() {
    let sent = close_tracks(&config(), "s1", &ids(&["0", "3"]), "offer");
    assert_eq!(
        line(&sent.request),
        "PUT https://rtc.live.cloudflare.com/v1/apps/app/sessions/s1/tracks/close Bearer key"
    );
    assert_eq!(sent.document.force, Some(false));
    let mids: Vec<String> = sent.document.tracks.unwrap().into_iter().map(mid_of).collect();
    assert_eq!(mids, vec!["0", "3"]);
    let (kind, sdp) = sent.document.session_description.unwrap();
    assert!(kind == SdpKind::Offer);
    assert_eq!(sdp, "offer");
}

fn mid_of(entry: TrackEntry) -> String {
    match entry {
        TrackEntry::Mid(mid) => mid,
        _ => panic!("not a section"),
    }
}

#[test]
fn closing_yields_the_answer() {
    assert_eq!(tracks_closed(answered(200, "", Some(response()))).ok().unwrap(), "answer");
    let mut silent = response();
    silent.session_description = None;
    assert_eq!(
        message(tracks_closed(answered(200, "", Some(silent)))),
        "cloudflare tracks/close returned no answer"
    );
    assert_eq!(
        message(tracks_closed(answered(500, "b", None))),
        "cloudflare tracks/close failed (500 Internal Server Error): b"
    );
    assert_eq!(message(tracks_closed(answered(200, "", None))), "tracks/close parse");
    assert_eq!(message(tracks_closed(Sent::Unreachable)), "cloudflare tracks/close request");
}

#[test]
fn a_failed_track_fails_the_close() {
    let partial = || {
        let mut r = response();
        r.tracks.push(track(Some("t1"), Some("busy")));
        r.tracks.push(track(Some("t2"), None));
        r
    };
    assert_eq!(
        message(tracks_closed(answered(200, "", Some(partial())))),
        "cloudflare tracks/close track error: t1 busy"
    );
    assert_eq!(
        message(tracks_force_closed(answered(200, "", Some(partial())))),
        "cloudflare forced tracks/close track error: t1 busy"
    );
    let mut bare = response();
    bare.tracks = vec![track(Some("t2"), None)];
    assert_eq!(
        message(tracks_closed(answered(200, "", Some(bare)))),
        "cloudflare tracks/close track error: t2 "
    );
    // An error of the whole comes before those of the tracks.
    let mut both = partial();
    both.error_code = Some("e".to_string());
    assert_eq!(
        message(tracks_closed(answered(200, "", Some(both)))),
        "cloudflare tracks/close error: e "
    );
}

#[test]
fn forced_closes_come_in_chunks() {
    let mids: Vec<String> = (0..130).map(|i| i.to_string()).collect();
    let sent = force_close_tracks(&config(), "s1", &mids);
    assert_eq!(sent.len(), 3);
    let mut named: Vec<String> = Vec::new();
    for (request, expected) in sent.into_iter().zip([64, 64, 2]) {
        assert!(line(&request.request).ends_with("/sessions/s1/tracks/close Bearer key"));
        assert!(line(&request.request).starts_with("PUT "));
        assert_eq!(request.document.force, Some(true));
        assert!(request.document.session_description.is_none());
        let chunk = request.document.tracks.unwrap();
        assert_eq!(chunk.len(), expected);
        named.extend(chunk.into_iter().map(mid_of));
    }
    assert_eq!(named, mids);
    assert_eq!(force_close_tracks(&config(), "s1", &mids[..64]).len(), 1);
    assert_eq!(force_close_tracks(&config(), "s1", &mids[..65]).len(), 2);
    assert!(force_close_tracks(&config(), "s1", &[]).is_empty());
}

#[test]
fn a_forced_close_stops_at_the_first_failure() {
    assert!(matches!(begin_force_close(0), ForceClose::Done));
    assert!(matches!(begin_force_close(3), ForceClose::Send(0)));
    let good = || answered(200, "", Some(response()));
    assert!(matches!(continue_force_close(3, 0, good()), ForceClose::Send(1)));
    assert!(matches!(continue_force_close(3, 2, good()), ForceClose::Done));
    match continue_force_close(3, 1, answered(500, "b", None)) {
        ForceClose::Failed(e) => assert_eq!(
            e.message(),
            "cloudflare forced tracks/close failed (500 Internal Server Error): b"
        ),
        _ => panic!("not stopped"),
    }
}

#[test]
fn forced_closes_need_no_answer() {
    let mut silent = response();
    silent.session_description = None;
    assert!(tracks_force_closed(answered(200, "", Some(silent))).is_ok());
    let mut failed = response();
    failed.error_code = Some("e".to_string());
    assert_eq!(
        message(tracks_force_closed(answered(200, "", Some(failed)))),
        "cloudflare forced tracks/close error: e "
    );
    assert_eq!(
        message(tracks_force_closed(answered(403, "b", None))),
        "cloudflare forced tracks/close failed (403 Forbidden): b"
    );
    assert_eq!(
        message(tracks_force_closed(answered(200, "", None))),
        "forced tracks/close parse"
    );
    assert_eq!(
        message(tracks_force_closed(Sent::Unreachable)),
        "cloudflare forced tracks/close request"
    );
}

#[test]
fn renegotiation_hands_the_answer_in() {
    let sent = renegotiate(&config(), "s1", "answer");
    assert_eq!(
        line(&sent.request),
        "PUT https://rtc.live.cloudflare.com/v1/apps/app/sessions/s1/renegotiate Bearer key"
    );
    let (kind, sdp) = sent.document.session_description.unwrap();
    assert!(kind == SdpKind::Answer);
    assert_eq!(sdp, "answer");
    assert!(sent.document.tracks.is_none());
    // Nothing is read out of the body.
    assert!(renegotiated(answered(200, "anything", None)).is_ok());
    assert_eq!(message(renegotiated(Sent::Unreachable)), "cloudflare renegotiate request");
    assert_eq!(Call::Renegotiate.label(), "cloudflare renegotiate");
}
