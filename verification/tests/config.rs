use nao_me_prenda_janja::config::{
    default_udp_port, hex, parse_backend, parse_open_port, parse_port, required_value, value_or_default, AuthConfig,
    BuiltinRtcConfig, CloudflareConfig, Config, ConfigError, DiscordConfig, Question, RtcBackend,
    RtcConfig, ServerConfig, Setup,
};

fn config(backend: RtcBackend, cloudflare: Option<CloudflareConfig>) -> Config {
    Config {
        discord: DiscordConfig {
            client_id: "id".to_string(),
            client_secret: "secret".to_string(),
            bot_token: "bot".to_string(),
        },
        cloudflare,
        rtc: RtcConfig { backend, builtin: BuiltinRtcConfig::default() },
        server: ServerConfig { port: 8787, public_domain: "example.com".to_string() },
        auth: AuthConfig { session_secret: "00".to_string() },
    }
}

fn app() -> CloudflareConfig {
    CloudflareConfig { app_id: "app".to_string(), app_secret: "hush".to_string() }
}

fn run(lines: &[&str]) -> (Setup, Vec<bool>) {
    let mut setup = Setup::new();
    let taken = lines.iter().map(|line| setup.answer(line)).collect();
    (setup, taken)
}

#[test]
fn cloudflare_backend_needs_its_section() {
    assert!(config(RtcBackend::Cloudflare, Some(app())).validated().is_ok());
    assert!(config(RtcBackend::Builtin, None).validated().is_ok());
    assert!(config(RtcBackend::Builtin, Some(app())).validated().is_ok());
    let refused = config(RtcBackend::Cloudflare, None).validated();
    assert!(matches!(refused, Err(ConfigError::MissingCloudflare)));
    assert_eq!(
        ConfigError::MissingCloudflare.message(),
        "rtc.backend is \"cloudflare\" but the [cloudflare] section is missing.\n\
         Add app_id/app_secret, or switch to the builtin SFU with:\n\
         [rtc]\nbackend = \"builtin\""
    );
}

#[test]
fn cloudflare_section_is_handed_out() {
    let cfg = config(RtcBackend::Cloudflare, Some(app()));
    assert_eq!(cfg.cloudflare().app_id, "app");
    assert_eq!(cfg.cloudflare().app_secret, "hush");
}

#[test]
fn defaults_are_cloudflare_and_its_port() {
    assert_eq!(default_udp_port(), 20101);
    let rtc = RtcConfig::default();
    assert!(rtc.backend == RtcBackend::Cloudflare);
    assert_eq!(rtc.builtin.udp_port, 20101);
    assert_eq!(rtc.builtin.public_ip, None);
}

#[test]
fn ports_parse_as_sixteen_bit_numbers_do() {
    for s in [
        "0", "1", "8787", "65535", "65536", "99999", "00080", "+80", "+", "++1", "-1", "", " 80",
        "8 0", "8a", "\u{663}", "4294967376", "18446744073709551697",
    ] {
        assert_eq!(parse_port(s), s.parse::<u16>().ok(), "{s:?}");
    }
}

#[test]
fn ports_that_can_be_opened_start_at_one() {
    assert_eq!(parse_open_port("0"), None);
    assert_eq!(parse_open_port("+000"), None);
    assert_eq!(parse_open_port("1"), Some(1));
    assert_eq!(parse_open_port("65535"), Some(65535));
    assert_eq!(parse_open_port("65536"), None);
    assert_eq!(parse_open_port(""), None);
}

#[test]
fn dialogue_turns_port_zero_down() {
    let (mut setup, taken) = run(&["id", "secret", "bot", "2", "0"]);
    assert_eq!(taken, vec![true, true, true, true, false]);
    assert!(setup.question == Some(Question::UdpPort));
    assert_eq!(setup.answers.udp_port, 20101);
    for line in ["1", "", "example.com"] {
        assert!(setup.answer(line));
    }
    assert!(!setup.answer("0"));
    assert!(!setup.answer("00"));
    assert!(setup.question == Some(Question::ListenPort));
    assert!(setup.answer("65535"));
    assert_eq!(setup.answers.udp_port, 1);
    assert_eq!(setup.answers.port, 65535);
}

#[test]
fn finished_setup_is_accepted_unchanged() {
    for lines in [
        ["id", "secret", "bot", "1", "app", "hush", "example.com", "80"],
        ["id", "secret", "bot", "2", "3478", "203.0.113.7", "example.com", "80"],
    ] {
        let cfg = run(&lines).0.finish();
        let again = cfg.clone().validated().ok().unwrap();
        assert_eq!(again.auth.session_secret, cfg.auth.session_secret);
        assert_eq!(again.discord.client_id, "id");
        assert!(again.rtc.backend == cfg.rtc.backend);
        assert_eq!(again.rtc.builtin.udp_port, cfg.rtc.builtin.udp_port);
        assert_eq!(again.rtc.builtin.public_ip, cfg.rtc.builtin.public_ip);
        assert_eq!(again.server.port, 80);
        assert_eq!(again.cloudflare.is_some(), cfg.cloudflare.is_some());
    }
}

#[test]
fn lines_are_trimmed_and_blank_ones_mean_the_default() {
    assert_eq!(required_value("  value \r\n"), Some("value".to_string()));
    assert_eq!(required_value(" \t\n"), None);
    assert_eq!(value_or_default("\n", "1"), "1");
    assert_eq!(value_or_default(" 2\n", "1"), "2");
}

#[test]
fn backends_have_a_number_and_a_name() {
    assert!(parse_backend("1") == Some(RtcBackend::Cloudflare));
    assert!(parse_backend("cloudflare") == Some(RtcBackend::Cloudflare));
    assert!(parse_backend("2") == Some(RtcBackend::Builtin));
    assert!(parse_backend("builtin") == Some(RtcBackend::Builtin));
    assert!(parse_backend("3").is_none());
    assert!(parse_backend("Builtin").is_none());
}

#[test]
fn dialogue_asks_for_cloudflare_credentials() {
    let (setup, taken) = run(&["id\n", "secret\n", "bot\n", "\n", "app\n", "hush\n", "example.com\n", "\n"]);
    assert!(taken.iter().all(|t| *t));
    assert!(setup.question.is_none());
    let cfg = setup.finish_with("feed".to_string());
    assert_eq!(cfg.discord.client_id, "id");
    assert_eq!(cfg.discord.client_secret, "secret");
    assert_eq!(cfg.discord.bot_token, "bot");
    assert!(cfg.rtc.backend == RtcBackend::Cloudflare);
    assert_eq!(cfg.cloudflare().app_id, "app");
    assert_eq!(cfg.cloudflare().app_secret, "hush");
    assert_eq!(cfg.rtc.builtin.udp_port, 20101);
    assert_eq!(cfg.rtc.builtin.public_ip, None);
    assert_eq!(cfg.server.public_domain, "example.com");
    assert_eq!(cfg.server.port, 8787);
    assert_eq!(cfg.auth.session_secret, "feed");
}

#[test]
fn dialogue_asks_for_the_relay_settings() {
    let (setup, taken) =
        run(&["id", "secret", "bot", "builtin", "3478", "203.0.113.7", "example.com", "80"]);
    assert!(taken.iter().all(|t| *t));
    let cfg = setup.finish_with(String::new());
    assert!(cfg.rtc.backend == RtcBackend::Builtin);
    assert!(cfg.cloudflare.is_none());
    assert_eq!(cfg.rtc.builtin.udp_port, 3478);
    assert_eq!(cfg.rtc.builtin.public_ip.as_deref(), Some("203.0.113.7"));
    assert_eq!(cfg.server.port, 80);
}

#[test]
fn blank_public_ip_is_left_to_detection() {
    let (setup, _) = run(&["id", "secret", "bot", "2", "", "", "example.com", ""]);
    let cfg = setup.finish_with(String::new());
    assert_eq!(cfg.rtc.builtin.udp_port, 20101);
    assert_eq!(cfg.rtc.builtin.public_ip, None);
}

#[test]
fn typos_lose_nothing() {
    let (setup, taken) = run(&[
        "", "id", " ", "secret", "bot", "three", "2", "port", "70000", "5000", "", "", "example.com",
        "x", "",
    ]);
    assert_eq!(
        taken,
        vec![
            false, true, false, true, true, false, true, false, false, true, true, false, true,
            false, true
        ]
    );
    assert!(setup.question.is_none());
    assert_eq!(setup.answers.client_id, "id");
    assert_eq!(setup.answers.client_secret, "secret");
    assert_eq!(setup.answers.udp_port, 5000);
    assert_eq!(setup.answers.port, 8787);
}

#[test]
fn finished_dialogue_takes_no_more_lines() {
    let (mut setup, _) = run(&["id", "secret", "bot", "2", "", "", "example.com", ""]);
    assert!(!setup.answer("more"));
    assert!(setup.question.is_none());
}

#[test]
fn questions_know_their_defaults() {
    assert_eq!(Question::ClientId.default_value(), None);
    assert_eq!(Question::PublicDomain.default_value(), None);
    assert_eq!(Question::Backend.default_value(), Some("1"));
    assert_eq!(Question::UdpPort.default_value(), Some("20101"));
    assert_eq!(Question::PublicIp.default_value(), Some(""));
    assert_eq!(Question::ListenPort.default_value(), Some("8787"));
}

#[test]
fn session_secret_is_thirty_two_random_bytes() {
    let first = run(&["id", "secret", "bot", "2", "", "", "example.com", ""]).0.finish();
    let second = run(&["id", "secret", "bot", "2", "", "", "example.com", ""]).0.finish();
    assert_eq!(first.auth.session_secret.len(), 64);
    assert_ne!(first.auth.session_secret, second.auth.session_secret);
}

#[test]
fn hex_writes_two_digits_per_byte() {
    assert_eq!(hex(&[]), "");
    assert_eq!(hex(&[0, 1, 0x0f, 0x10, 0xab, 0xff]), "00010f10abff");
    let all: Vec<u8> = (0..=255).collect();
    let expected: String = all.iter().map(|b| format!("{b:02x}")).collect();
    assert_eq!(hex(&all), expected);
}
