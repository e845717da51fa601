//! The server's configuration: its shape, its check and the first-run dialogue.

use vstd::prelude::*;

use crate::auth;
use crate::text;

verus! {

/// Everything the server reads from its configuration file.
#[derive(Clone)]
pub struct Config {
    pub discord: DiscordConfig,
    /// Required only when the backend is Cloudflare.
    pub cloudflare: Option<CloudflareConfig>,
    /// Which media backend carries the video.
    pub rtc: RtcConfig,
    pub server: ServerConfig,
    pub auth: AuthConfig,
}

#[derive(Clone)]
pub struct DiscordConfig {
    /// Application (client) ID from the Discord developer portal.
    pub client_id: String,
    pub client_secret: String,
    /// Bot token, used to verify activity-instance participants.
    pub bot_token: String,
}

#[derive(Clone)]
pub struct CloudflareConfig {
    /// Cloudflare Realtime (SFU) App ID.
    pub app_id: String,
    /// Cloudflare Realtime App secret (bearer token for the SFU HTTPS API).
    pub app_secret: String,
}

#[derive(Clone)]
pub struct RtcConfig {
    pub backend: RtcBackend,
    pub builtin: BuiltinRtcConfig,
}

/// Who relays the media.
#[derive(Clone, Copy, PartialEq, Eq, Structural)]
pub enum RtcBackend {
    /// Media relayed by Cloudflare Realtime.
    Cloudflare,
    /// This server relays the media itself.
    Builtin,
}

#[derive(Clone)]
pub struct BuiltinRtcConfig {
    /// Single UDP port carrying all WebRTC media (must be open to the internet).
    pub udp_port: u16,
    /// Public IP advertised to browsers. Auto-detected at startup when unset.
    pub public_ip: Option<String>,
}

#[derive(Clone)]
pub struct ServerConfig {
    pub port: u16,
    /// Public domain the reverse proxy points at this server.
    pub public_domain: String,
}

#[derive(Clone)]
pub struct AuthConfig {
    /// Hex-encoded HMAC key for session tokens. Generated on first run.
    pub session_secret: String,
}

/// Why a configuration is refused.
#[derive(Clone, Copy, PartialEq, Eq, Structural)]
pub enum ConfigError {
    /// The Cloudflare backend is selected and its section is missing.
    MissingCloudflare,
}

impl ConfigError {
    /// What the operator is told.
    pub fn message(&self) -> (r: &'static str)
        ensures
            r@ == "rtc.backend is \"cloudflare\" but the [cloudflare] section is missing.\nAdd app_id/app_secret, or switch to the builtin SFU with:\n[rtc]\nbackend = \"builtin\""@,
    {
        "rtc.backend is \"cloudflare\" but the [cloudflare] section is missing.\nAdd app_id/app_secret, or switch to the builtin SFU with:\n[rtc]\nbackend = \"builtin\""
    }
}

/// The UDP port that carries the media where the configuration names none.
pub fn default_udp_port() -> (r: u16)
    ensures
        r == 20101,
{
    20101
}

impl Default for BuiltinRtcConfig {
    fn default() -> (r: Self)
        ensures
            r.udp_port == 20101,
            r.public_ip is None,
    {
        BuiltinRtcConfig { udp_port: default_udp_port(), public_ip: None }
    }
}

impl Default for RtcBackend {
    fn default() -> (r: Self)
        ensures
            r == RtcBackend::Cloudflare,
    {
        RtcBackend::Cloudflare
    }
}

impl Default for RtcConfig {
    fn default() -> (r: Self)
        ensures
            r.backend == RtcBackend::Cloudflare,
            r.builtin.udp_port == 20101,
            r.builtin.public_ip is None,
    {
        RtcConfig { backend: RtcBackend::default(), builtin: BuiltinRtcConfig::default() }
    }
}

impl Config {
    /// The section that the selected backend needs is there.
    pub open spec fn valid(self) -> bool {
        self.rtc.backend == RtcBackend::Cloudflare ==> self.cloudflare is Some
    }

    /// What the configuration is read as at a start.
    pub open spec fn accepted(self) -> Result<Config, ConfigError> {
        if self.valid() {
            Ok(self)
        } else {
            Err(ConfigError::MissingCloudflare)
        }
    }

    /// The configuration, if it can be served.
    pub fn validated(self) -> (r: Result<Config, ConfigError>)
        ensures
            r == self.accepted(),
            r is Err <==> self.rtc.backend is Cloudflare && self.cloudflare is None,
            r matches Ok(cfg) ==> cfg == self,
    {
        if self.rtc.backend == RtcBackend::Cloudflare && self.cloudflare.is_none() {
            Err(ConfigError::MissingCloudflare)
        } else {
            Ok(self)
        }
    }

    /// The Cloudflare section, which is there when that backend is selected.
    pub fn cloudflare(&self) -> (r: &CloudflareConfig)
        requires
            self.cloudflare is Some,
        ensures
            self.cloudflare == Some(*r),
    {
        self.cloudflare.as_ref().unwrap()
    }
}

/// A decimal digit.
pub open spec fn decimal(c: char) -> bool {
    '0' <= c <= '9'
}

/// The number that a sequence of decimal digits writes.
pub open spec fn decimal_value(s: Seq<char>) -> nat
    decreases s.len(),
{
    if s.len() == 0 {
        0
    } else {
        10 * decimal_value(s.drop_last()) + (s.last() as int - '0' as int) as nat
    }
}

/// `s` without a plus sign in front.
pub open spec fn unsigned_part(s: Seq<char>) -> Seq<char> {
    if s.len() > 0 && s[0] == '+' {
        s.skip(1)
    } else {
        s
    }
}

/// `s` writes a sixteen-bit number: decimal digits, at least one, after an
/// optional plus sign.
pub open spec fn writes_port(s: Seq<char>) -> bool {
    let digits = unsigned_part(s);
    &&& digits.len() > 0
    &&& forall|i: int| 0 <= i < digits.len() ==> decimal(#[trigger] digits[i])
    &&& decimal_value(digits) <= u16::MAX
}

/// `s` writes a port that can be opened: one from 1 to 65535.
pub open spec fn writes_open_port(s: Seq<char>) -> bool {
    writes_port(s) && decimal_value(unsigned_part(s)) >= 1
}

proof fn decimal_value_grows(s: Seq<char>, n: int)
    requires
        0 <= n <= s.len(),
        forall|i: int| 0 <= i < s.len() ==> decimal(#[trigger] s[i]),
    ensures
        decimal_value(s.take(n)) <= decimal_value(s),
    decreases s.len(),
{
    if n == s.len() {
        assert(s.take(n) == s);
    } else {
        decimal_value_grows(s.drop_last(), n);
        assert(s.drop_last().take(n) == s.take(n));
    }
}

/// The port number that `s` writes, if it does.
pub fn parse_port(s: &str) -> (r: Option<u16>)
    ensures
        r is Some <==> writes_port(s@),
        r matches Some(n) ==> n == decimal_value(unsigned_part(s@)),
{
    let v = text::to_chars(s);
    let start: usize = if v.len() > 0 && v[0] == '+' {
        1
    } else {
        0
    };
    let ghost digits = unsigned_part(s@);
    assert(v@.skip(start as int) == digits);
    if v.len() == start {
        return None;
    }
    let mut i: usize = start;
    let mut n: u32 = 0;
    assert(digits.take(0) == Seq::<char>::empty());
    while i < v.len()
        invariant
            start <= i <= v@.len(),
            v@.skip(start as int) == digits,
            digits == unsigned_part(s@),
            n <= u16::MAX,
            n == decimal_value(digits.take(i - start)),
            forall|k: int| 0 <= k < i - start ==> decimal(#[trigger] digits[k]),
        decreases v.len() - i,
    {
        let c = v[i];
        assert(digits[i - start] == c);
        if c < '0' || c > '9' {
            return None;
        }
        n = n * 10 + (c as u32 - '0' as u32);
        proof {
            let next = digits.take(i + 1 - start);
            assert(next.drop_last() == digits.take(i - start));
            assert(next.last() == c);
            if n > u16::MAX && writes_port(s@) {
                decimal_value_grows(digits, i + 1 - start);
            }
        }
        if n > 65535 {
            return None;
        }
        i += 1;
    }
    assert(digits.take(i - start) == digits);
    Some(n as u16)
}

/// The port that `s` writes, if it writes one that can be opened.
pub fn parse_open_port(s: &str) -> (r: Option<u16>)
    ensures
        r is Some <==> writes_open_port(s@),
        r matches Some(n) ==> n == decimal_value(unsigned_part(s@)),
{
    match parse_port(s) {
        Some(port) => if port == 0 {
            None
        } else {
            Some(port)
        },
        None => None,
    }
}

/// What a line stands for where an empty one means `default`.
pub open spec fn or_default(line: Seq<char>, default: Seq<char>) -> Seq<char> {
    if text::trimmed(line).len() == 0 {
        default
    } else {
        text::trimmed(line)
    }
}

/// The value of a line that has to hold one: `None` where it is blank.
pub fn required_value(line: &str) -> (r: Option<String>)
    ensures
        match r {
            Some(value) => value@ == text::trimmed(line@) && value@.len() > 0,
            None => text::trimmed(line@).len() == 0,
        },
{
    let value = text::trim(line);
    if value.as_str().is_empty() {
        None
    } else {
        Some(value)
    }
}

/// The value of a line where a blank one means `default`.
pub fn value_or_default(line: &str, default: &str) -> (r: String)
    ensures
        r@ == or_default(line@, default@),
{
    match required_value(line) {
        Some(value) => value,
        None => text::owned(default),
    }
}

/// The media backend that an answer names.
pub open spec fn backend_named(answer: Seq<char>) -> Option<RtcBackend> {
    if answer == "1"@ || answer == "cloudflare"@ {
        Some(RtcBackend::Cloudflare)
    } else if answer == "2"@ || answer == "builtin"@ {
        Some(RtcBackend::Builtin)
    } else {
        None
    }
}

/// The media backend that an answer names, if it names one.
pub fn parse_backend(answer: &str) -> (r: Option<RtcBackend>)
    ensures
        r == backend_named(answer@),
        r == Some(RtcBackend::Cloudflare) <==> answer@ == "1"@ || answer@ == "cloudflare"@,
        r == Some(RtcBackend::Builtin) <==> answer@ == "2"@ || answer@ == "builtin"@,
{
    proof {
        backend_answers_are_apart();
    }
    if text::same_text(answer, "1") || text::same_text(answer, "cloudflare") {
        Some(RtcBackend::Cloudflare)
    } else if text::same_text(answer, "2") || text::same_text(answer, "builtin") {
        Some(RtcBackend::Builtin)
    } else {
        None
    }
}

/// What the first-run dialogue asks for, one line of input each.
#[derive(Clone, Copy, PartialEq, Eq, Structural)]
pub enum Question {
    ClientId,
    ClientSecret,
    BotToken,
    Backend,
    AppId,
    AppSecret,
    UdpPort,
    PublicIp,
    PublicDomain,
    ListenPort,
}

impl Question {
    /// What a blank line means: `None` where one is not accepted.
    pub open spec fn default_text(self) -> Option<Seq<char>> {
        match self {
            Question::Backend => Some("1"@),
            Question::UdpPort => Some("20101"@),
            Question::PublicIp => Some(""@),
            Question::ListenPort => Some("8787"@),
            _ => None,
        }
    }

    /// What a blank line means: `None` where one is not accepted.
    pub fn default_value(&self) -> (r: Option<&'static str>)
        ensures
            match r {
                Some(d) => self.default_text() == Some(d@),
                None => self.default_text() is None,
            },
    {
        match self {
            Question::Backend => Some("1"),
            Question::UdpPort => Some("20101"),
            Question::PublicIp => Some(""),
            Question::ListenPort => Some("8787"),
            _ => None,
        }
    }
}

/// What the operator has answered so far.
pub struct Answers {
    pub client_id: String,
    pub client_secret: String,
    pub bot_token: String,
    pub backend: RtcBackend,
    pub app_id: String,
    pub app_secret: String,
    pub udp_port: u16,
    pub public_ip: Option<String>,
    pub public_domain: String,
    pub port: u16,
}

/// The answers as plain texts and numbers.
pub struct AnswersView {
    pub client_id: Seq<char>,
    pub client_secret: Seq<char>,
    pub bot_token: Seq<char>,
    pub backend: RtcBackend,
    pub app_id: Seq<char>,
    pub app_secret: Seq<char>,
    pub udp_port: u16,
    pub public_ip: Option<Seq<char>>,
    pub public_domain: Seq<char>,
    pub port: u16,
}

impl View for Answers {
    type V = AnswersView;

    open spec fn view(&self) -> AnswersView {
        AnswersView {
            client_id: self.client_id@,
            client_secret: self.client_secret@,
            bot_token: self.bot_token@,
            backend: self.backend,
            app_id: self.app_id@,
            app_secret: self.app_secret@,
            udp_port: self.udp_port,
            public_ip: text::opt_text(self.public_ip),
            public_domain: self.public_domain@,
            port: self.port,
        }
    }
}

/// What becomes of the dialogue when a line is entered: the question that comes
/// next, if any, and the answers with the new one, or `None` where the line is
/// turned down and the question stands.
pub open spec fn answered(question: Question, a: AnswersView, line: Seq<char>) -> Option<
    (Option<Question>, AnswersView),
> {
    let value = match question.default_text() {
        Some(d) => or_default(line, d),
        None => text::trimmed(line),
    };
    if question.default_text() is None && value.len() == 0 {
        None
    } else {
        match question {
            Question::ClientId => Some(
                (Some(Question::ClientSecret), AnswersView { client_id: value, ..a }),
            ),
            Question::ClientSecret => Some(
                (Some(Question::BotToken), AnswersView { client_secret: value, ..a }),
            ),
            Question::BotToken => Some(
                (Some(Question::Backend), AnswersView { bot_token: value, ..a }),
            ),
            Question::Backend => match backend_named(value) {
                Some(RtcBackend::Cloudflare) => Some(
                    (
                        Some(Question::AppId),
                        AnswersView { backend: RtcBackend::Cloudflare, ..a },
                    ),
                ),
                Some(RtcBackend::Builtin) => Some(
                    (Some(Question::UdpPort), AnswersView { backend: RtcBackend::Builtin, ..a }),
                ),
                None => None,
            },
            Question::AppId => Some((Some(Question::AppSecret), AnswersView { app_id: value, ..a })),
            Question::AppSecret => Some(
                (Some(Question::PublicDomain), AnswersView { app_secret: value, ..a }),
            ),
            Question::UdpPort => if writes_open_port(value) {
                Some(
                    (
                        Some(Question::PublicIp),
                        AnswersView { udp_port: decimal_value(unsigned_part(value)) as u16, ..a },
                    ),
                )
            } else {
                None
            },
            Question::PublicIp => Some(
                (
                    Some(Question::PublicDomain),
                    AnswersView {
                        public_ip: if value.len() == 0 {
                            None
                        } else {
                            Some(value)
                        },
                        ..a
                    },
                ),
            ),
            Question::PublicDomain => Some(
                (Some(Question::ListenPort), AnswersView { public_domain: value, ..a }),
            ),
            Question::ListenPort => if writes_open_port(value) {
                Some(
                    (None, AnswersView { port: decimal_value(unsigned_part(value)) as u16, ..a }),
                )
            } else {
                None
            },
        }
    }
}

/// The answers that no line has been given for yet.
pub open spec fn no_answers() -> AnswersView {
    AnswersView {
        client_id: Seq::empty(),
        client_secret: Seq::empty(),
        bot_token: Seq::empty(),
        backend: RtcBackend::Cloudflare,
        app_id: Seq::empty(),
        app_secret: Seq::empty(),
        udp_port: 20101,
        public_ip: None,
        public_domain: Seq::empty(),
        port: 0,
    }
}

/// The first-run dialogue: the question that waits for a line, `None` once all
/// have been answered, and the answers so far.
pub struct Setup {
    pub question: Option<Question>,
    pub answers: Answers,
}

impl Setup {
    /// The dialogue at its first question.
    pub fn new() -> (r: Setup)
        ensures
            r.question == Some(Question::ClientId),
            r.answers@ == no_answers(),
    {
        let builtin = BuiltinRtcConfig::default();
        Setup {
            question: Some(Question::ClientId),
            answers: Answers {
                client_id: String::new(),
                client_secret: String::new(),
                bot_token: String::new(),
                backend: RtcBackend::default(),
                app_id: String::new(),
                app_secret: String::new(),
                udp_port: builtin.udp_port,
                public_ip: builtin.public_ip,
                public_domain: String::new(),
                port: 0,
            },
        }
    }

    /// Takes one line of input as the answer to the question at hand. A line
    /// that does not answer it is turned down: the result is `false`, and
    /// nothing that was entered before is lost.
    pub fn answer(&mut self, line: &str) -> (r: bool)
        ensures
            match old(self).question {
                None => !r && *final(self) == *old(self),
                Some(q) => match answered(q, old(self).answers@, line@) {
                    Some((next, answers)) => r && final(self).question == next
                        && final(self).answers@ == answers,
                    None => !r && *final(self) == *old(self),
                },
            },
    {
        let q = match self.question {
            Some(q) => q,
            None => {
                return false;
            },
        };
        let value = match q.default_value() {
            Some(d) => value_or_default(line, d),
            None => match required_value(line) {
                Some(value) => value,
                None => {
                    return false;
                },
            },
        };
        match q {
            Question::ClientId => {
                self.answers.client_id = value;
                self.question = Some(Question::ClientSecret);
            },
            Question::ClientSecret => {
                self.answers.client_secret = value;
                self.question = Some(Question::BotToken);
            },
            Question::BotToken => {
                self.answers.bot_token = value;
                self.question = Some(Question::Backend);
            },
            Question::Backend => match parse_backend(value.as_str()) {
                Some(RtcBackend::Cloudflare) => {
                    self.answers.backend = RtcBackend::Cloudflare;
                    self.question = Some(Question::AppId);
                },
                Some(RtcBackend::Builtin) => {
                    self.answers.backend = RtcBackend::Builtin;
                    self.question = Some(Question::UdpPort);
                },
                None => {
                    return false;
                },
            },
            Question::AppId => {
                self.answers.app_id = value;
                self.question = Some(Question::AppSecret);
            },
            Question::AppSecret => {
                self.answers.app_secret = value;
                self.question = Some(Question::PublicDomain);
            },
            Question::UdpPort => match parse_open_port(value.as_str()) {
                Some(port) => {
                    self.answers.udp_port = port;
                    self.question = Some(Question::PublicIp);
                },
                None => {
                    return false;
                },
            },
            Question::PublicIp => {
                self.answers.public_ip = if value.as_str().is_empty() {
                    None
                } else {
                    Some(value)
                };
                self.question = Some(Question::PublicDomain);
            },
            Question::PublicDomain => {
                self.answers.public_domain = value;
                self.question = Some(Question::ListenPort);
            },
            Question::ListenPort => match parse_open_port(value.as_str()) {
                Some(port) => {
                    self.answers.port = port;
                    self.question = None;
                },
                None => {
                    return false;
                },
            },
        }
        true
    }

    /// The configuration that the answers describe, with this session secret.
    pub fn finish_with(self, session_secret: String) -> (r: Config)
        ensures
            configures(self.answers@, session_secret@, r),
            r.valid(),
            r.discord.client_id == self.answers.client_id,
            r.discord.client_secret == self.answers.client_secret,
            r.discord.bot_token == self.answers.bot_token,
            r.cloudflare is Some <==> self.answers.backend is Cloudflare,
            r.cloudflare matches Some(c) ==> c.app_id == self.answers.app_id && c.app_secret
                == self.answers.app_secret,
            r.rtc.backend == self.answers.backend,
            r.rtc.builtin.udp_port == self.answers.udp_port,
            r.rtc.builtin.public_ip == self.answers.public_ip,
            r.server.port == self.answers.port,
            r.server.public_domain == self.answers.public_domain,
            r.auth.session_secret == session_secret,
    {
        let a = self.answers;
        let cloudflare = match a.backend {
            RtcBackend::Cloudflare => Some(
                CloudflareConfig { app_id: a.app_id, app_secret: a.app_secret },
            ),
            RtcBackend::Builtin => None,
        };
        Config {
            discord: DiscordConfig {
                client_id: a.client_id,
                client_secret: a.client_secret,
                bot_token: a.bot_token,
            },
            cloudflare,
            rtc: RtcConfig {
                backend: a.backend,
                builtin: BuiltinRtcConfig { udp_port: a.udp_port, public_ip: a.public_ip },
            },
            server: ServerConfig { port: a.port, public_domain: a.public_domain },
            auth: AuthConfig { session_secret },
        }
    }

    /// The configuration that the answers describe, with a fresh session secret
    /// of thirty-two random bytes.
    pub fn finish(self) -> (r: Config)
        ensures
            configures(self.answers@, r.auth.session_secret@, r),
            r.valid(),
            exists|key: Seq<u8>| key.len() == 32 && r.auth.session_secret@ == #[trigger] hex_text(key),
    {
        let session_secret = auth::random_id(32);
        self.finish_with(session_secret)
    }
}

/// `cfg` holds what was answered, and this session secret.
pub open spec fn configures(a: AnswersView, session_secret: Seq<char>, cfg: Config) -> bool {
    &&& cfg.discord.client_id@ == a.client_id
    &&& cfg.discord.client_secret@ == a.client_secret
    &&& cfg.discord.bot_token@ == a.bot_token
    &&& match cfg.cloudflare {
        Some(c) => a.backend == RtcBackend::Cloudflare && c.app_id@ == a.app_id && c.app_secret@
            == a.app_secret,
        None => a.backend == RtcBackend::Builtin,
    }
    &&& cfg.rtc.backend == a.backend
    &&& cfg.rtc.builtin.udp_port == a.udp_port
    &&& text::opt_text(cfg.rtc.builtin.public_ip) == a.public_ip
    &&& cfg.server.port == a.port
    &&& cfg.server.public_domain@ == a.public_domain
    &&& cfg.auth.session_secret@ == session_secret
}

/// The hexadecimal digit of a number below sixteen.
pub open spec fn hex_digit(n: int) -> char {
    if n < 10 {
        (0x30 + n) as char
    } else {
        (0x61 + n - 10) as char
    }
}

/// The bytes in lower-case hexadecimal, two digits each.
pub open spec fn hex_text(bytes: Seq<u8>) -> Seq<char> {
    Seq::new(
        2 * bytes.len(),
        |i: int|
            if i % 2 == 0 {
                hex_digit(bytes[i / 2] as int / 16)
            } else {
                hex_digit(bytes[i / 2] as int % 16)
            },
    )
}

fn digit(n: u8) -> (r: char)
    requires
        n < 16,
    ensures
        r == hex_digit(n as int),
{
    if n < 10 {
        (0x30 + n) as char
    } else {
        (0x61 + (n - 10)) as char
    }
}

/// The bytes in lower-case hexadecimal.
pub fn hex(bytes: &[u8]) -> (r: String)
    ensures
        r@ == hex_text(bytes@),
{
    let mut r = String::new();
    let mut i: usize = 0;
    while i < bytes.len()
        invariant
            i <= bytes@.len(),
            r@ == hex_text(bytes@.take(i as int)),
        decreases bytes.len() - i,
    {
        let b = bytes[i];
        r.push(digit(b / 16));
        r.push(digit(b % 16));
        assert(r@ == hex_text(bytes@.take(i + 1)));
        i += 1;
    }
    assert(bytes@.take(i as int) == bytes@);
    r
}

/// Hexadecimal text stands for one sequence of bytes only, and has two digits for
/// each of them.
pub proof fn hex_is_injective(a: Seq<u8>, b: Seq<u8>)
    ensures
        hex_text(a).len() == 2 * a.len(),
        hex_text(a) == hex_text(b) ==> a == b,
{
    if hex_text(a) == hex_text(b) {
        assert(a.len() == b.len());
        assert forall|i: int| 0 <= i < a.len() implies a[i] == b[i] by {
            assert(hex_text(a)[2 * i] == hex_text(b)[2 * i]);
            assert(hex_text(a)[2 * i + 1] == hex_text(b)[2 * i + 1]);
            assert((2 * i) / 2 == i && (2 * i + 1) / 2 == i);
            digits_are_apart(a[i] as int / 16, b[i] as int / 16);
            digits_are_apart(a[i] as int % 16, b[i] as int % 16);
        }
        assert(a == b);
    }
}

proof fn digits_are_apart(m: int, n: int)
    requires
        0 <= m < 16,
        0 <= n < 16,
        hex_digit(m) == hex_digit(n),
    ensures
        m == n,
{
}

/// The dialogue after some lines: the question that waits, if any, and the answers
/// so far. A line that is turned down leaves it where it was, and lines after its
/// end change nothing.
pub open spec fn dialogue(lines: Seq<Seq<char>>) -> (Option<Question>, AnswersView)
    decreases lines.len(),
{
    if lines.len() == 0 {
        (Some(Question::ClientId), no_answers())
    } else {
        let before = dialogue(lines.drop_last());
        match before.0 {
            Some(q) => match answered(q, before.1, lines.last()) {
                Some(after) => after,
                None => before,
            },
            None => before,
        }
    }
}

/// How many questions have been answered when this one waits.
spec fn stage(q: Option<Question>) -> int {
    match q {
        Some(Question::ClientId) => 0,
        Some(Question::ClientSecret) => 1,
        Some(Question::BotToken) => 2,
        Some(Question::Backend) => 3,
        Some(Question::AppId) => 4,
        Some(Question::UdpPort) => 4,
        Some(Question::AppSecret) => 5,
        Some(Question::PublicIp) => 5,
        Some(Question::PublicDomain) => 6,
        Some(Question::ListenPort) => 7,
        None => 8,
    }
}

/// What the answers hold at the latest when a question waits.
spec fn filled_in(q: Option<Question>, a: AnswersView) -> bool {
    let cloudflare = a.backend == RtcBackend::Cloudflare;
    &&& stage(q) > 0 ==> a.client_id.len() > 0
    &&& stage(q) > 1 ==> a.client_secret.len() > 0
    &&& stage(q) > 2 ==> a.bot_token.len() > 0
    &&& stage(q) <= 3 ==> cloudflare
    &&& (q == Some(Question::AppId) || q == Some(Question::AppSecret)) ==> cloudflare
    &&& (q == Some(Question::UdpPort) || q == Some(Question::PublicIp)) ==> !cloudflare
    &&& cloudflare && stage(q) > 4 ==> a.app_id.len() > 0
    &&& cloudflare && stage(q) > 5 ==> a.app_secret.len() > 0
    &&& cloudflare ==> a.udp_port == 20101 && a.public_ip is None
    &&& 1 <= a.udp_port
    &&& a.public_ip matches Some(ip) ==> ip.len() > 0
    &&& q is None ==> 1 <= a.port
    &&& stage(q) > 6 ==> a.public_domain.len() > 0
}

proof fn dialogue_fills_in(lines: Seq<Seq<char>>)
    ensures
        filled_in(dialogue(lines).0, dialogue(lines).1),
    decreases lines.len(),
{
    if lines.len() > 0 {
        dialogue_fills_in(lines.drop_last());
    }
}

/// Whatever is entered, a dialogue that has come to its end holds everything that
/// the server needs: no required value is blank, both ports can be opened, a public
/// IP that is given is not blank, the Cloudflare credentials are there where that
/// backend was chosen, and then the built-in relay's settings are the defaults.
pub proof fn finished_dialogue_is_complete(lines: Seq<Seq<char>>)
    requires
        dialogue(lines).0 is None,
    ensures
        ({
            let a = dialogue(lines).1;
            &&& a.client_id.len() > 0
            &&& a.client_secret.len() > 0
            &&& a.bot_token.len() > 0
            &&& a.public_domain.len() > 0
            &&& 1 <= a.udp_port
            &&& 1 <= a.port
            &&& a.public_ip matches Some(ip) ==> ip.len() > 0
            &&& a.backend == RtcBackend::Cloudflare ==> a.app_id.len() > 0 && a.app_secret.len()
                > 0 && a.udp_port == 20101 && a.public_ip is None
        }),
{
    dialogue_fills_in(lines);
}

/// A typo loses nothing: a line that is turned down leaves the question standing
/// and every answer as it was.
pub proof fn typo_loses_nothing(lines: Seq<Seq<char>>, line: Seq<char>)
    requires
        dialogue(lines).0 matches Some(q) && answered(q, dialogue(lines).1, line) is None,
    ensures
        dialogue(lines.push(line)) == dialogue(lines),
{
    assert(lines.push(line).drop_last() == lines);
}

/// Two configurations say the same in every field.
pub open spec fn same_settings(a: Config, b: Config) -> bool {
    &&& a.discord.client_id@ == b.discord.client_id@
    &&& a.discord.client_secret@ == b.discord.client_secret@
    &&& a.discord.bot_token@ == b.discord.bot_token@
    &&& match (a.cloudflare, b.cloudflare) {
        (Some(x), Some(y)) => x.app_id@ == y.app_id@ && x.app_secret@ == y.app_secret@,
        (None, None) => true,
        _ => false,
    }
    &&& a.rtc.backend == b.rtc.backend
    &&& a.rtc.builtin.udp_port == b.rtc.builtin.udp_port
    &&& text::opt_text(a.rtc.builtin.public_ip) == text::opt_text(b.rtc.builtin.public_ip)
    &&& a.server.port == b.server.port
    &&& a.server.public_domain@ == b.server.public_domain@
    &&& a.auth.session_secret@ == b.auth.session_secret@
}

/// A setup need not be repeated: the configuration that some answers lead to, and any
/// other that says the same in every field, is accepted unchanged at the next start.
/// The answers and the session secret leave nothing in it open.
pub proof fn finished_setup_is_accepted_again(
    a: AnswersView,
    session_secret: Seq<char>,
    cfg: Config,
    read_back: Config,
)
    requires
        configures(a, session_secret, cfg),
    ensures
        cfg.valid(),
        cfg.accepted() == Ok::<Config, ConfigError>(cfg),
        same_settings(cfg, read_back) ==> read_back.accepted() == Ok::<Config, ConfigError>(
            read_back,
        ) && configures(a, session_secret, read_back),
        configures(a, session_secret, read_back) ==> same_settings(cfg, read_back),
{
}

proof fn backend_answers_are_apart()
    ensures
        "1"@ != "2"@,
        "1"@ != "builtin"@,
        "cloudflare"@ != "2"@,
        "cloudflare"@ != "builtin"@,
        "1"@.len() > 0,
{
    reveal_strlit("1");
    reveal_strlit("2");
    reveal_strlit("cloudflare");
    reveal_strlit("builtin");
    assert("1"@[0] != "2"@[0]);
    assert("1"@.len() != "builtin"@.len());
    assert("cloudflare"@.len() != "2"@.len());
    assert("cloudflare"@.len() != "builtin"@.len());
}

/// A backend is named by its number or by its name, and by nothing else.
pub proof fn backends_go_by_number_or_name(answer: Seq<char>)
    ensures
        backend_named(answer) == Some(RtcBackend::Cloudflare) <==> answer == "1"@ || answer
            == "cloudflare"@,
        backend_named(answer) == Some(RtcBackend::Builtin) <==> answer == "2"@ || answer
            == "builtin"@,
{
    backend_answers_are_apart();
}

/// A configuration is refused exactly where the Cloudflare backend is selected without its
/// section, and otherwise accepted as it is.
pub proof fn only_a_missing_section_is_refused(cfg: Config)
    ensures
        cfg.accepted() is Err <==> cfg.rtc.backend is Cloudflare && cfg.cloudflare is None,
        cfg.accepted() is Ok ==> cfg.accepted() == Ok::<Config, ConfigError>(cfg),
{
}

/// A digit more makes a number ten times as large and adds its own value. No digits write
/// nothing.
pub proof fn digits_write_numbers(s: Seq<char>, c: char)
    requires
        '0' <= c <= '9',
    ensures
        decimal_value(Seq::empty()) == 0,
        decimal_value(s.push(c)) == 10 * decimal_value(s) + (c as int - '0' as int),
{
    assert(s.push(c).drop_last() == s);
}

/// A port is written by one digit or more, with or without a plus sign in front, as long as
/// their number fits in sixteen bits. It can be opened where it is not zero.
pub proof fn ports_are_written_in_digits(s: Seq<char>, digits: Seq<char>)
    requires
        digits.len() > 0,
        forall|i: int| 0 <= i < digits.len() ==> '0' <= #[trigger] digits[i] <= '9',
    ensures
        unsigned_part(digits) == digits,
        unsigned_part(seq!['+'] + digits) == digits,
        writes_port(digits) <==> decimal_value(digits) <= 65535,
        writes_port(seq!['+'] + digits) <==> decimal_value(digits) <= 65535,
        writes_open_port(digits) <==> 1 <= decimal_value(digits) <= 65535,
        writes_open_port(seq!['+'] + digits) <==> 1 <= decimal_value(digits) <= 65535,
        writes_port(s) ==> {
            let own = unsigned_part(s);
            &&& s == own || s == seq!['+'] + own
            &&& own.len() > 0
            &&& forall|i: int| 0 <= i < own.len() ==> '0' <= #[trigger] own[i] <= '9'
        },
        writes_open_port(s) ==> writes_port(s),
{
    assert('0' <= digits[0]);
    assert((seq!['+'] + digits).skip(1) == digits);
    if s.len() > 0 && s[0] == '+' {
        assert(s == seq!['+'] + s.skip(1));
    }
    if writes_port(s) {
        let own = unsigned_part(s);
        assert forall|i: int| 0 <= i < own.len() implies '0' <= #[trigger] own[i] <= '9' by {
            assert(decimal(own[i]));
        }
    }
}

/// A line stands for what it holds without the white space around it, and a blank one for the
/// default.
pub proof fn blank_lines_mean_the_default(line: Seq<char>, default: Seq<char>)
    ensures
        text::trimmed(line).len() == 0 ==> or_default(line, default) == default,
        text::trimmed(line).len() > 0 ==> or_default(line, default) == text::trimmed(line),
{
}

/// A line is turned down exactly where it is blank and the question has no default, where it
/// names no backend, and where it writes no port that can be opened.
pub proof fn lines_are_turned_down_for_a_reason(q: Question, a: AnswersView, line: Seq<char>)
    ensures
        ({
            let value = text::trimmed(line);
            let blank = value.len() == 0;
            answered(q, a, line) is None <==> match q {
                Question::Backend => !blank && value != "1"@ && value != "cloudflare"@ && value
                    != "2"@ && value != "builtin"@,
                Question::UdpPort => !blank && !writes_open_port(value),
                Question::ListenPort => !blank && !writes_open_port(value),
                Question::PublicIp => false,
                _ => blank,
            }
        }),
{
    default_ports_can_be_opened();
}

proof fn default_ports_can_be_opened()
    ensures
        writes_open_port("20101"@),
        decimal_value(unsigned_part("20101"@)) == 20101,
        writes_open_port("8787"@),
        decimal_value(unsigned_part("8787"@)) == 8787,
        ""@.len() == 0,
{
    reveal_strlit("20101");
    reveal_strlit("8787");
    reveal_strlit("");
    let udp = "20101"@;
    assert(udp == seq!['2', '0', '1', '0', '1']);
    assert(udp.drop_last() == seq!['2', '0', '1', '0']);
    assert(udp.drop_last().drop_last() == seq!['2', '0', '1']);
    assert(udp.drop_last().drop_last().drop_last() == seq!['2', '0']);
    reveal_with_fuel(decimal_value, 6);
    let port = "8787"@;
    assert(port == seq!['8', '7', '8', '7']);
    assert(port.drop_last() == seq!['8', '7', '8']);
    assert(port.drop_last().drop_last() == seq!['8', '7']);
}

/// The number of the port that a line asks for, where a blank one asks for `default`.
pub open spec fn port_asked_for(line: Seq<char>, default: nat) -> nat {
    if text::trimmed(line).len() == 0 {
        default
    } else {
        decimal_value(unsigned_part(text::trimmed(line)))
    }
}

/// A line that a port may be read from: it is blank or writes one that can be opened.
pub open spec fn port_line(line: Seq<char>) -> bool {
    text::trimmed(line).len() == 0 || writes_open_port(text::trimmed(line))
}

/// Eight lines set the server up. The first three and the last two are asked of everyone, the
/// fourth chooses the backend, and the two between them are asked for that backend. Whatever
/// the lines hold, the answers hold the same without white space around it, each in its own
/// place, and nothing that was not asked for is filled in.
pub proof fn setup_keeps_every_answer(lines: Seq<Seq<char>>)
    requires
        lines.len() == 8,
        text::trimmed(lines[0]).len() > 0,
        text::trimmed(lines[1]).len() > 0,
        text::trimmed(lines[2]).len() > 0,
        text::trimmed(lines[6]).len() > 0,
        port_line(lines[7]),
        ({
            let choice = text::trimmed(lines[3]);
            ||| {
                &&& choice.len() == 0 || choice == "1"@ || choice == "cloudflare"@
                &&& text::trimmed(lines[4]).len() > 0
                &&& text::trimmed(lines[5]).len() > 0
            }
            ||| {
                &&& choice == "2"@ || choice == "builtin"@
                &&& port_line(lines[4])
            }
        }),
    ensures
        ({
            let choice = text::trimmed(lines[3]);
            let builtin = choice == "2"@ || choice == "builtin"@;
            let (question, a) = dialogue(lines);
            &&& question is None
            &&& a.client_id == text::trimmed(lines[0])
            &&& a.client_secret == text::trimmed(lines[1])
            &&& a.bot_token == text::trimmed(lines[2])
            &&& a.public_domain == text::trimmed(lines[6])
            &&& a.port == port_asked_for(lines[7], 8787)
            &&& if builtin {
                &&& a.backend is Builtin
                &&& a.udp_port == port_asked_for(lines[4], 20101)
                &&& a.public_ip is None <==> text::trimmed(lines[5]).len() == 0
                &&& a.public_ip is Some ==> a.public_ip == Some(text::trimmed(lines[5]))
                &&& a.app_id.len() == 0 && a.app_secret.len() == 0
            } else {
                &&& a.backend is Cloudflare
                &&& a.app_id == text::trimmed(lines[4])
                &&& a.app_secret == text::trimmed(lines[5])
                &&& a.udp_port == 20101
                &&& a.public_ip is None
            }
        }),
{
    backend_answers_are_apart();
    reveal_strlit("2");
    reveal_strlit("builtin");
    default_ports_can_be_opened();
    assert(lines.take(0) == Seq::<Seq<char>>::empty());
    one_more_line(lines, 0);
    one_more_line(lines, 1);
    one_more_line(lines, 2);
    one_more_line(lines, 3);
    assert(dialogue(lines.take(3)).0 == Some(Question::Backend));
    one_more_line(lines, 4);
    one_more_line(lines, 5);
    assert(dialogue(lines.take(6)).0 == Some(Question::PublicDomain));
    one_more_line(lines, 6);
    one_more_line(lines, 7);
    assert(lines.take(8) == lines);
}

proof fn one_more_line(lines: Seq<Seq<char>>, k: int)
    requires
        0 <= k < lines.len(),
    ensures
        ({
            let before = dialogue(lines.take(k));
            dialogue(lines.take(k + 1)) == match before.0 {
                Some(q) => match answered(q, before.1, lines[k]) {
                    Some(after) => after,
                    None => before,
                },
                None => before,
            }
        }),
{
    assert(lines.take(k + 1).drop_last() == lines.take(k));
    assert(lines.take(k + 1).last() == lines[k]);
}

/// Each byte is written as two digits, the one for its upper half first.
pub proof fn bytes_are_spelled_in_hexadecimal(bytes: Seq<u8>, i: int)
    requires
        0 <= i < bytes.len(),
    ensures
        hex_text(bytes).len() == 2 * bytes.len(),
        hex_text(bytes)[2 * i] == "0123456789abcdef"@[bytes[i] as int / 16],
        hex_text(bytes)[2 * i + 1] == "0123456789abcdef"@[bytes[i] as int % 16],
{
    reveal_strlit("0123456789abcdef");
    assert((2 * i) / 2 == i && (2 * i + 1) / 2 == i);
}

/// An answer that is taken changes what was asked for and nothing else, and the last question
/// is the one for the port to listen on.
pub proof fn answers_go_where_they_were_asked(q: Question, a: AnswersView, line: Seq<char>)
    requires
        answered(q, a, line) is Some,
    ensures
        ({
            let value = text::trimmed(line);
            let (next, b) = answered(q, a, line)->0;
            &&& b.client_id == (if q is ClientId {
                value
            } else {
                a.client_id
            })
            &&& b.client_secret == (if q is ClientSecret {
                value
            } else {
                a.client_secret
            })
            &&& b.bot_token == (if q is BotToken {
                value
            } else {
                a.bot_token
            })
            &&& b.app_id == (if q is AppId {
                value
            } else {
                a.app_id
            })
            &&& b.app_secret == (if q is AppSecret {
                value
            } else {
                a.app_secret
            })
            &&& b.public_domain == (if q is PublicDomain {
                value
            } else {
                a.public_domain
            })
            &&& q !is Backend ==> b.backend == a.backend
            &&& q is Backend ==> (b.backend is Builtin <==> value == "2"@ || value == "builtin"@)
            &&& q !is UdpPort ==> b.udp_port == a.udp_port
            &&& q is UdpPort ==> b.udp_port == port_asked_for(line, 20101)
            &&& q !is ListenPort ==> b.port == a.port
            &&& q is ListenPort ==> b.port == port_asked_for(line, 8787)
            &&& q !is PublicIp ==> b.public_ip == a.public_ip
            &&& q is PublicIp ==> (b.public_ip is None <==> value.len() == 0) && (
            b.public_ip is Some ==> b.public_ip == Some(value))
            &&& next is None <==> q is ListenPort
        }),
{
    backend_answers_are_apart();
    reveal_strlit("2");
    reveal_strlit("builtin");
    default_ports_can_be_opened();
}

} // verus!
