//! Calls to outside services: what is asked, and what an answer comes to.

use vstd::prelude::*;

use crate::text;

verus! {

/// The calls that the server makes.
#[derive(Clone, Copy, PartialEq, Eq, Structural)]
pub enum Call {
    TokenExchange,
    User,
    ActivityInstance,
    SessionsNew,
    TracksNew,
    TracksClose,
    ForcedTracksClose,
    Renegotiate,
}

impl Call {
    /// What the call is called in messages.
    pub open spec fn label_text(self) -> Seq<char> {
        match self {
            Call::TokenExchange => "discord token exchange"@,
            Call::User => "discord users/@me"@,
            Call::ActivityInstance => "discord activity-instance"@,
            Call::SessionsNew => "cloudflare sessions/new"@,
            Call::TracksNew => "cloudflare tracks/new"@,
            Call::TracksClose => "cloudflare tracks/close"@,
            Call::ForcedTracksClose => "cloudflare forced tracks/close"@,
            Call::Renegotiate => "cloudflare renegotiate"@,
        }
    }

    /// What the call is called in messages.
    pub fn label(&self) -> (r: &'static str)
        ensures
            r@ == self.label_text(),
    {
        match self {
            Call::TokenExchange => "discord token exchange",
            Call::User => "discord users/@me",
            Call::ActivityInstance => "discord activity-instance",
            Call::SessionsNew => "cloudflare sessions/new",
            Call::TracksNew => "cloudflare tracks/new",
            Call::TracksClose => "cloudflare tracks/close",
            Call::ForcedTracksClose => "cloudflare forced tracks/close",
            Call::Renegotiate => "cloudflare renegotiate",
        }
    }

    /// What is said of an answer to the call that cannot be read.
    pub open spec fn unreadable_text(self) -> Seq<char> {
        match self {
            Call::TokenExchange => "discord token response parse"@,
            Call::User => "discord user parse"@,
            Call::ActivityInstance => "activity-instance parse"@,
            Call::SessionsNew => "sessions/new parse"@,
            Call::TracksNew => "tracks/new parse"@,
            Call::TracksClose => "tracks/close parse"@,
            Call::ForcedTracksClose => "forced tracks/close parse"@,
            Call::Renegotiate => "renegotiate parse"@,
        }
    }

    /// What is said of an answer to the call that cannot be read.
    pub fn unreadable(&self) -> (r: &'static str)
        ensures
            r@ == self.unreadable_text(),
    {
        match self {
            Call::TokenExchange => "discord token response parse",
            Call::User => "discord user parse",
            Call::ActivityInstance => "activity-instance parse",
            Call::SessionsNew => "sessions/new parse",
            Call::TracksNew => "tracks/new parse",
            Call::TracksClose => "tracks/close parse",
            Call::ForcedTracksClose => "forced tracks/close parse",
            Call::Renegotiate => "renegotiate parse",
        }
    }

    /// A refusal is reported with the body that came with it.
    pub open spec fn quotes(self) -> bool {
        self != Call::User && self != Call::ActivityInstance
    }

    /// Whether a refusal is reported with the body that came with it.
    pub fn quotes_body(&self) -> (r: bool)
        ensures
            r == self.quotes(),
    {
        match self {
            Call::User => false,
            Call::ActivityInstance => false,
            _ => true,
        }
    }
}

/// Why a call came to nothing.
pub enum ApiError {
    /// No answer came.
    Unreachable(Call),
    /// The answer was a status other than success.
    Refused { call: Call, status: String, body: Option<String> },
    /// The answer could not be read.
    Unreadable(Call),
    /// The answer reports an error, with a detail where the service gives any.
    Reported { call: Call, code: String, detail: Option<String> },
    /// The answer reports an error for one of the tracks.
    TrackReported { call: Call, code: String, detail: String },
    /// The answer lacks the session description that it owes.
    NoAnswer(Call),
}

/// Why a call came to nothing, as plain values.
pub enum ApiErrorView {
    Unreachable(Call),
    Refused { call: Call, status: Seq<char>, body: Option<Seq<char>> },
    Unreadable(Call),
    Reported { call: Call, code: Seq<char>, detail: Option<Seq<char>> },
    TrackReported { call: Call, code: Seq<char>, detail: Seq<char> },
    NoAnswer(Call),
}

impl View for ApiError {
    type V = ApiErrorView;

    open spec fn view(&self) -> ApiErrorView {
        match *self {
            ApiError::Unreachable(call) => ApiErrorView::Unreachable(call),
            ApiError::Refused { call, status, body } => ApiErrorView::Refused {
                call,
                status: status@,
                body: text::opt_text(body),
            },
            ApiError::Unreadable(call) => ApiErrorView::Unreadable(call),
            ApiError::Reported { call, code, detail } => ApiErrorView::Reported {
                call,
                code: code@,
                detail: text::opt_text(detail),
            },
            ApiError::TrackReported { call, code, detail } => ApiErrorView::TrackReported {
                call,
                code: code@,
                detail: detail@,
            },
            ApiError::NoAnswer(call) => ApiErrorView::NoAnswer(call),
        }
    }
}

impl ApiErrorView {
    /// The error in words.
    pub open spec fn message(self) -> Seq<char> {
        match self {
            ApiErrorView::Unreachable(call) => call.label_text() + " request"@,
            ApiErrorView::Refused { call, status, body } => {
                let refused = call.label_text() + " failed ("@ + status + ")"@;
                match body {
                    Some(body) => refused + ": "@ + body,
                    None => refused,
                }
            },
            ApiErrorView::Unreadable(call) => call.unreadable_text(),
            ApiErrorView::Reported { call, code, detail } => {
                let reported = call.label_text() + " error: "@ + code;
                match detail {
                    Some(detail) => reported + " "@ + detail,
                    None => reported,
                }
            },
            ApiErrorView::TrackReported { call, code, detail } => call.label_text()
                + " track error: "@ + code + " "@ + detail,
            ApiErrorView::NoAnswer(call) => call.label_text() + " returned no answer"@,
        }
    }
}

impl ApiError {
    /// The error in words.
    pub fn message(&self) -> (r: String)
        ensures
            r@ == self@.message(),
    {
        match self {
            ApiError::Unreachable(call) => text::joined(call.label(), " request"),
            ApiError::Refused { call, status, body } => {
                let mut r = text::joined(call.label(), " failed (");
                r.append(status.as_str());
                r.append(")");
                if let Some(body) = body {
                    r.append(": ");
                    r.append(body.as_str());
                }
                r
            },
            ApiError::Unreadable(call) => text::owned(call.unreadable()),
            ApiError::Reported { call, code, detail } => {
                let mut r = text::joined(call.label(), " error: ");
                r.append(code.as_str());
                if let Some(detail) = detail {
                    r.append(" ");
                    r.append(detail.as_str());
                }
                r
            },
            ApiError::TrackReported { call, code, detail } => {
                let mut r = text::joined(call.label(), " track error: ");
                r.append(code.as_str());
                r.append(" ");
                r.append(detail.as_str());
                r
            },
            ApiError::NoAnswer(call) => text::joined(call.label(), " returned no answer"),
        }
    }
}

/// The number of an HTTP status.
pub open spec fn is_status(code: u16) -> bool {
    100 <= code <= 999
}

/// A status that reports success.
pub open spec fn success(code: u16) -> bool {
    200 <= code <= 299
}

/// Whether a status reports success.
pub fn is_success(code: u16) -> (r: bool)
    ensures
        r == success(code),
{
    200 <= code && code <= 299
}

/// How `reqwest::StatusCode` writes a status.
pub uninterp spec fn status_line(code: u16) -> Seq<char>;

/// The `Display` of the `reqwest::StatusCode` that `from_u16` makes of a number
/// of three digits: the text depends on the number alone.
#[verifier::external_body]
fn status_text(code: u16) -> (r: String)
    requires
        is_status(code),
    ensures
        r@ == status_line(code),
{
    reqwest::StatusCode::from_u16(code).expect("status code in range").to_string()
}

/// What came of sending a request.
pub enum Sent<T> {
    /// No answer came.
    Unreachable,
    /// An answer came: its status, its body as text, and what the body says,
    /// where it can be read.
    Answered { status: u16, body: String, parsed: Option<T> },
}

impl<T> Sent<T> {
    /// The status of the answer, if one came, is one.
    pub open spec fn wf(self) -> bool {
        self matches Sent::Answered { status, .. } ==> is_status(status)
    }
}

/// What an answer comes to: what it says where it reports success and can be
/// read, and otherwise why it does not count.
pub open spec fn outcome<T>(call: Call, sent: Sent<T>) -> Result<T, ApiErrorView> {
    match sent {
        Sent::Unreachable => Err(ApiErrorView::Unreachable(call)),
        Sent::Answered { status, body, parsed } => if !success(status) {
            Err(
                ApiErrorView::Refused {
                    call,
                    status: status_line(status),
                    body: if call.quotes() {
                        Some(body@)
                    } else {
                        None
                    },
                },
            )
        } else {
            match parsed {
                Some(value) => Ok(value),
                None => Err(ApiErrorView::Unreadable(call)),
            }
        },
    }
}

/// A result with its error as plain values.
pub open spec fn plain<T>(r: Result<T, ApiError>) -> Result<T, ApiErrorView> {
    match r {
        Ok(value) => Ok(value),
        Err(e) => Err(e@),
    }
}

/// The refusal that a status other than success stands for.
pub fn refusal(call: Call, status_line_text: String, body: String) -> (r: ApiError)
    ensures
        r@ == (ApiErrorView::Refused {
            call,
            status: status_line_text@,
            body: if call.quotes() {
                Some(body@)
            } else {
                None
            },
        }),
{
    let body = if call.quotes_body() {
        Some(body)
    } else {
        None
    };
    ApiError::Refused { call, status: status_line_text, body }
}

/// What an answer comes to.
pub fn settle<T>(call: Call, sent: Sent<T>) -> (r: Result<T, ApiError>)
    requires
        sent.wf(),
    ensures
        plain(r) == outcome(call, sent),
        match sent {
            Sent::Unreachable => r matches Err(ApiError::Unreachable(c)) && c == call,
            Sent::Answered { status, body, parsed } => if status / 100 != 2 {
                r matches Err(ApiError::Refused { call: c, status: line, body: quoted }) && {
                    &&& c == call
                    &&& line@ == status_line(status)
                    &&& quoted is None <==> call is User || call is ActivityInstance
                    &&& quoted is Some ==> quoted->0@ == body@
                }
            } else {
                match parsed {
                    Some(value) => r == Ok::<T, ApiError>(value),
                    None => r matches Err(ApiError::Unreadable(c)) && c == call,
                }
            },
        },
{
    match sent {
        Sent::Unreachable => Err(ApiError::Unreachable(call)),
        Sent::Answered { status, body, parsed } => {
            if !is_success(status) {
                Err(refusal(call, status_text(status), body))
            } else {
                match parsed {
                    Some(value) => Ok(value),
                    None => Err(ApiError::Unreadable(call)),
                }
            }
        },
    }
}

#[derive(Clone, Copy, PartialEq, Eq, Structural)]
pub enum Method {
    Get,
    Post,
    Put,
}

/// How a request authorises itself.
pub enum Credentials {
    Anonymous,
    /// A bearer token.
    Bearer(String),
    /// An `Authorization` header of this value.
    Header(String),
}

/// The same with its text as characters.
pub enum CredentialsView {
    Anonymous,
    Bearer(Seq<char>),
    Header(Seq<char>),
}

impl View for Credentials {
    type V = CredentialsView;

    open spec fn view(&self) -> CredentialsView {
        match *self {
            Credentials::Anonymous => CredentialsView::Anonymous,
            Credentials::Bearer(token) => CredentialsView::Bearer(token@),
            Credentials::Header(value) => CredentialsView::Header(value@),
        }
    }
}

/// A request without its body.
pub struct Request {
    pub method: Method,
    pub url: String,
    pub credentials: Credentials,
}

/// A request as plain values.
pub struct RequestView {
    pub method: Method,
    pub url: Seq<char>,
    pub credentials: CredentialsView,
}

impl View for Request {
    type V = RequestView;

    open spec fn view(&self) -> RequestView {
        RequestView { method: self.method, url: self.url@, credentials: self.credentials@ }
    }
}

/// The statuses that report success are the two hundreds.
pub proof fn two_hundreds_report_success(code: u16)
    ensures
        success(code) <==> code / 100 == 2,
{
}

/// An answer counts exactly where it came, reports success and can be read, and then it comes
/// to what it says. Otherwise the error names the call and tells which of these it lacked,
/// with the status of a refusal and with its body for every call but the two that look users
/// up.
pub proof fn only_readable_success_counts<T>(call: Call, status: u16, body: String, parsed: Option<T>)
    ensures
        outcome(call, Sent::<T>::Unreachable) == Err::<T, ApiErrorView>(
            ApiErrorView::Unreachable(call),
        ),
        ({
            let r = outcome(call, Sent::Answered { status, body, parsed });
            if status / 100 == 2 {
                match parsed {
                    Some(value) => r == Ok::<T, ApiErrorView>(value),
                    None => r == Err::<T, ApiErrorView>(ApiErrorView::Unreadable(call)),
                }
            } else {
                r matches Err(ApiErrorView::Refused { call: c, status: line, body: quoted }) && {
                    &&& c == call
                    &&& line == status_line(status)
                    &&& quoted is None <==> call is User || call is ActivityInstance
                    &&& quoted is Some ==> quoted == Some(body@)
                }
            }
        }),
{
}

/// The words for an error say what the service said: the status and the body of a refusal
/// that is quoted, and the code and the detail of an error that an answer reports. They start
/// with the call, except where an answer cannot be read.
pub proof fn messages_say_what_the_service_said(
    call: Call,
    status: Seq<char>,
    body: Option<Seq<char>>,
    code: Seq<char>,
    detail: Seq<char>,
)
    ensures
        ({
            let words = ApiErrorView::Refused { call, status, body }.message();
            &&& text::begins(words, call.label_text())
            &&& text::contains_text(words, "("@ + status + ")"@)
            &&& body is Some ==> text::ends(words, ": "@ + body->0)
        }),
        ({
            let words = ApiErrorView::Reported { call, code, detail: Some(detail) }.message();
            &&& text::begins(words, call.label_text())
            &&& text::ends(words, code + " "@ + detail)
        }),
        ({
            let words = ApiErrorView::Reported { call, code, detail: None }.message();
            &&& text::begins(words, call.label_text())
            &&& text::ends(words, code)
        }),
        ({
            let words = ApiErrorView::TrackReported { call, code, detail }.message();
            &&& text::begins(words, call.label_text())
            &&& text::ends(words, code + " "@ + detail)
        }),
        text::begins(ApiErrorView::Unreachable(call).message(), call.label_text()),
        text::begins(ApiErrorView::NoAnswer(call).message(), call.label_text()),
{
    let label = call.label_text();
    reveal_strlit("(");
    reveal_strlit(")");
    reveal_strlit(" failed (");
    let refused = label + " failed ("@ + status + ")"@;
    let words = ApiErrorView::Refused { call, status, body }.message();
    let tail = match body {
        Some(body) => ": "@ + body,
        None => Seq::empty(),
    };
    let front = label + " failed "@;
    reveal_strlit(" failed ");
    assert(words == front + ("("@ + status + ")"@) + tail);
    text::texts_are_found_in_what_they_make_up(words, "("@ + status + ")"@);
    assert(words.subrange(0, label.len() as int) == label);
    if body is Some {
        assert(words.subrange(words.len() - tail.len(), words.len() as int) == tail);
    }
    let reported = ApiErrorView::Reported { call, code, detail: Some(detail) }.message();
    let said = code + " "@ + detail;
    assert(reported.subrange(0, label.len() as int) == label);
    assert(reported.subrange(reported.len() - said.len(), reported.len() as int) == said);
    let bare = ApiErrorView::Reported { call, code, detail: None }.message();
    assert(bare.subrange(0, label.len() as int) == label);
    assert(bare.subrange(bare.len() - code.len(), bare.len() as int) == code);
    let track = ApiErrorView::TrackReported { call, code, detail }.message();
    assert(track.subrange(0, label.len() as int) == label);
    assert(track.subrange(track.len() - said.len(), track.len() as int) == said);
    let lost = ApiErrorView::Unreachable(call).message();
    assert(lost.subrange(0, label.len() as int) == label);
    let mute = ApiErrorView::NoAnswer(call).message();
    assert(mute.subrange(0, label.len() as int) == label);
}

/// A call is called after the service that it goes to.
pub proof fn labels_name_the_service(call: Call)
    ensures
        call is TokenExchange || call is User || call is ActivityInstance ==> text::begins(
            call.label_text(),
            "discord "@,
        ),
        !(call is TokenExchange || call is User || call is ActivityInstance) ==> text::begins(
            call.label_text(),
            "cloudflare "@,
        ),
{
    reveal_strlit("discord ");
    reveal_strlit("cloudflare ");
    reveal_strlit("discord token exchange");
    reveal_strlit("discord users/@me");
    reveal_strlit("discord activity-instance");
    reveal_strlit("cloudflare sessions/new");
    reveal_strlit("cloudflare tracks/new");
    reveal_strlit("cloudflare tracks/close");
    reveal_strlit("cloudflare forced tracks/close");
    reveal_strlit("cloudflare renegotiate");
    let label = call.label_text();
    if call is TokenExchange || call is User || call is ActivityInstance {
        assert(label.subrange(0, 8) == "discord "@);
    } else {
        assert(label.subrange(0, 11) == "cloudflare "@);
    }
}

} // verus!
