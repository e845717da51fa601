//! What Discord is asked, and what its answers mean.

use vstd::prelude::*;

use crate::config::Config;
use crate::http;
use crate::http::{ApiError, Call, Credentials, Method, Request, Sent};
use crate::text;

verus! {

pub const API: &'static str = "https://discord.com/api/v10";

/// The status of an answer about something that does not exist.
pub const NOT_FOUND: u16 = 404;

pub struct TokenResponse {
    pub access_token: String,
}

pub struct DiscordUser {
    pub id: String,
    pub username: String,
    pub global_name: Option<String>,
    pub avatar: Option<String>,
}

impl DiscordUser {
    /// The name that others see: the global one, if the user has chosen one.
    pub fn display_name(&self) -> (r: String)
        ensures
            r == (match self.global_name {
                Some(name) => name,
                None => self.username,
            }),
    {
        match &self.global_name {
            Some(name) => name.clone(),
            None => self.username.clone(),
        }
    }
}

/// A running activity and the users that take part in it.
pub struct ActivityInstance {
    pub users: Vec<String>,
    pub location: Option<ActivityLocation>,
}

pub struct ActivityLocation {
    pub channel_id: Option<String>,
    pub guild_id: Option<String>,
}

/// Whether a user takes part in an activity, and where the activity runs.
pub struct InstanceCheck {
    pub is_participant: bool,
    pub location: Option<ActivityLocation>,
}

/// A request whose body is a form.
pub struct FormRequest {
    pub request: Request,
    pub form: Vec<(&'static str, String)>,
}

/// The fields of a form as plain values.
pub open spec fn form_views(form: Seq<(&'static str, String)>) -> Seq<(Seq<char>, Seq<char>)> {
    form.map_values(|f: (&'static str, String)| (f.0@, f.1@))
}

/// Asks for an access token in exchange for the authorization code that the
/// activity received.
pub fn exchange_code(cfg: &Config, code: &str) -> (r: FormRequest)
    ensures
        r.request@ == (http::RequestView {
            method: Method::Post,
            url: API@ + "/oauth2/token"@,
            credentials: http::CredentialsView::Anonymous,
        }),
        form_views(r.form@) == seq![
            ("client_id"@, cfg.discord.client_id@),
            ("client_secret"@, cfg.discord.client_secret@),
            ("grant_type"@, "authorization_code"@),
            ("code"@, code@),
        ],
{
    let form = vec![
        ("client_id", cfg.discord.client_id.clone()),
        ("client_secret", cfg.discord.client_secret.clone()),
        ("grant_type", text::owned("authorization_code")),
        ("code", text::owned(code)),
    ];
    let request = Request {
        method: Method::Post,
        url: text::joined(API, "/oauth2/token"),
        credentials: Credentials::Anonymous,
    };
    assert(form_views(form@) == seq![
        ("client_id"@, cfg.discord.client_id@),
        ("client_secret"@, cfg.discord.client_secret@),
        ("grant_type"@, "authorization_code"@),
        ("code"@, code@),
    ]);
    FormRequest { request, form }
}

/// What came of asking for an access token.
pub fn token_received(sent: Sent<TokenResponse>) -> (r: Result<TokenResponse, ApiError>)
    requires
        sent.wf(),
    ensures
        http::plain(r) == http::outcome(Call::TokenExchange, sent),
{
    http::settle(Call::TokenExchange, sent)
}

/// Asks who the holder of an access token is.
pub fn fetch_user(access_token: &str) -> (r: Request)
    ensures
        r@ == (http::RequestView {
            method: Method::Get,
            url: API@ + "/users/@me"@,
            credentials: http::CredentialsView::Bearer(access_token@),
        }),
{
    Request {
        method: Method::Get,
        url: text::joined(API, "/users/@me"),
        credentials: Credentials::Bearer(text::owned(access_token)),
    }
}

/// What came of asking who the holder of an access token is.
pub fn user_received(sent: Sent<DiscordUser>) -> (r: Result<DiscordUser, ApiError>)
    requires
        sent.wf(),
    ensures
        http::plain(r) == http::outcome(Call::User, sent),
{
    http::settle(Call::User, sent)
}

/// Asks, with the bot's token, who takes part in an activity instance.
pub fn check_instance_participant(cfg: &Config, instance_id: &str) -> (r: Request)
    ensures
        r@ == (http::RequestView {
            method: Method::Get,
            url: API@ + "/applications/"@ + cfg.discord.client_id@ + "/activity-instances/"@
                + instance_id@,
            credentials: http::CredentialsView::Header("Bot "@ + cfg.discord.bot_token@),
        }),
{
    let mut url = text::joined(API, "/applications/");
    url.append(cfg.discord.client_id.as_str());
    url.append("/activity-instances/");
    url.append(instance_id);
    Request {
        method: Method::Get,
        url,
        credentials: Credentials::Header(text::joined("Bot ", cfg.discord.bot_token.as_str())),
    }
}

/// What the answer about an activity instance says of one user. An instance that
/// does not exist has no participants.
pub open spec fn checked(sent: Sent<ActivityInstance>, user_id: Seq<char>) -> Result<
    InstanceCheck,
    http::ApiErrorView,
> {
    if sent matches Sent::Answered { status, .. } && status == NOT_FOUND {
        Ok(InstanceCheck { is_participant: false, location: None })
    } else {
        match http::outcome(Call::ActivityInstance, sent) {
            Ok(instance) => Ok(
                InstanceCheck {
                    is_participant: text::texts(instance.users@).contains(user_id),
                    location: instance.location,
                },
            ),
            Err(e) => Err(e),
        }
    }
}

/// What the answer about an activity instance says of one user. This is what all
/// authorization rests on: a valid user who is not in the activity's voice
/// channel cannot get a session for that room.
pub fn instance_checked(sent: Sent<ActivityInstance>, user_id: &str) -> (r: Result<
    InstanceCheck,
    ApiError,
>)
    requires
        sent.wf(),
    ensures
        http::plain(r) == checked(sent, user_id@),
        match sent {
            Sent::Answered { status, parsed, .. } => if status == 404 {
                r matches Ok(check) && !check.is_participant && check.location is None
            } else if status / 100 == 2 && parsed is Some {
                r matches Ok(check) && {
                    &&& check.is_participant <==> exists|i: int|
                        0 <= i < parsed->0.users@.len() && #[trigger] parsed->0.users@[i]@
                            == user_id@
                    &&& check.location == parsed->0.location
                }
            } else {
                r is Err
            },
            Sent::Unreachable => r is Err,
        },
{
    proof {
        listed_users_participate(sent, user_id@);
    }
    if let Sent::Answered { status, .. } = &sent {
        if *status == NOT_FOUND {
            return Ok(InstanceCheck { is_participant: false, location: None });
        }
    }
    match http::settle(Call::ActivityInstance, sent) {
        Ok(instance) => {
            let is_participant = text::lists(instance.users.as_slice(), user_id);
            Ok(InstanceCheck { is_participant, location: instance.location })
        },
        Err(e) => Err(e),
    }
}

/// Whether a check found the user to be a participant: `None` where it could not
/// find out.
pub fn participation(check: &Result<InstanceCheck, ApiError>) -> (r: Option<bool>)
    ensures
        r == (match *check {
            Ok(check) => Some(check.is_participant),
            Err(_) => None,
        }),
{
    match check {
        Ok(check) => Some(check.is_participant),
        Err(_) => None,
    }
}

/// Nobody is taken for a participant who is not listed in an answer that reports
/// success: whatever else comes back, the check does not say so.
pub proof fn only_listed_users_participate(sent: Sent<ActivityInstance>, user_id: Seq<char>)
    requires
        checked(sent, user_id) matches Ok(check) && check.is_participant,
    ensures
        sent matches Sent::Answered { status, parsed: Some(instance), .. } && http::success(status)
            && text::texts(instance.users@).contains(user_id),
{
}

/// Whoever stands in the list of an answer that reports success, at any place, is taken for a
/// participant, and nobody else is; where the activity runs is handed on. An instance that is
/// not found has no participants, and any other answer leaves it open.
pub proof fn listed_users_participate(sent: Sent<ActivityInstance>, user_id: Seq<char>)
    ensures
        match sent {
            Sent::Answered { status, parsed, .. } => if status == 404 {
                checked(sent, user_id) matches Ok(check) && !check.is_participant
                    && check.location is None
            } else if status / 100 == 2 && parsed is Some {
                checked(sent, user_id) matches Ok(check) && {
                    &&& check.is_participant <==> exists|i: int|
                        0 <= i < parsed->0.users@.len() && #[trigger] parsed->0.users@[i]@
                            == user_id
                    &&& check.location == parsed->0.location
                }
            } else {
                checked(sent, user_id) is Err
            },
            Sent::Unreachable => checked(sent, user_id) is Err,
        },
{
    if let Sent::Answered { parsed: Some(instance), .. } = sent {
        let ids = text::texts(instance.users@);
        assert forall|i: int| 0 <= i < ids.len() implies #[trigger] instance.users@[i]@
            == ids[i] by {}
        if ids.contains(user_id) {
            let i: int = ids.index_of(user_id);
            assert(instance.users@[i]@ == user_id);
        }
        if exists|i: int| 0 <= i < ids.len() && #[trigger] instance.users@[i]@ == user_id {
            let i: int = choose|i: int|
                0 <= i < ids.len() && #[trigger] instance.users@[i]@ == user_id;
            assert(ids[i] == user_id);
        }
    }
}

} // verus!
