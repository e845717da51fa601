//! The books of the built-in media relay: its sessions, what they publish and
//! pull, and the tracks that are live.
//!
//! Publishers send an SDP offer that is answered; viewers get an offer per pull
//! that they answer. The peer connections themselves are the program's; here
//! stands which of them may exist and what they may carry.

use vstd::prelude::*;
use webrtc::peer_connection::sdp::session_description::RTCSessionDescription;

use crate::auth;
use crate::config;
use crate::config::BuiltinRtcConfig;
use crate::pull;
use crate::pull::Pull;
use crate::search;
use crate::text;

verus! {

/// How long a pull waits for the publisher's first media to register the track.
pub const TRACK_WAIT_SECS: u64 = 3;

/// How long a pull waits before it looks again.
pub const TRACK_RETRY_MILLIS: u64 = 100;

/// Sessions that have not connected after this long are dead: browsers negotiate
/// right after creating a session.
pub const STALE_SESSION_SECS: u64 = 120;

/// How often dead sessions are looked for.
pub const SWEEP_INTERVAL_SECS: u64 = 60;

/// A user legitimately holds one publisher and one viewer session, plus a few
/// transient retries.
pub const MAX_SESSIONS_PER_USER: usize = 16;

pub const MAX_SESSIONS_TOTAL: usize = 512;

/// A peer connection of the relay, as far as the relay keeps book of it.
pub struct Session {
    pub id: String,
    /// Discord user this session was minted for.
    pub owner: String,
    /// Which media section carries which track, for the tracks that this session
    /// publishes. Empty for viewer sessions.
    pub published: Vec<(String, String)>,
    /// Track names this session already pulled, each listed once.
    pub subscribed: Vec<String>,
    /// Unix seconds.
    pub created_at: u64,
}

/// A session as plain values: the published tracks as pairs of media section and
/// track name, the pulled ones as a set.
#[verifier::ext_equal]
pub struct SessionView {
    pub id: Seq<char>,
    pub owner: Seq<char>,
    pub published: Seq<(Seq<char>, Seq<char>)>,
    pub subscribed: Set<Seq<char>>,
    pub created_at: u64,
}

/// The views of some pairs of strings.
pub open spec fn pair_views(pairs: Seq<(String, String)>) -> Seq<(Seq<char>, Seq<char>)> {
    pairs.map_values(|p: (String, String)| (p.0@, p.1@))
}

impl View for Session {
    type V = SessionView;

    open spec fn view(&self) -> SessionView {
        SessionView {
            id: self.id@,
            owner: self.owner@,
            published: pair_views(self.published@),
            subscribed: text::texts(self.subscribed@).to_set(),
            created_at: self.created_at,
        }
    }
}

/// A live track: its name, the session that publishes it and the number that
/// marks its media there.
pub struct PublishedTrack {
    pub name: String,
    pub session_id: String,
    pub media_ssrc: u32,
}

/// A live track as plain values.
pub struct TrackView {
    pub name: Seq<char>,
    pub session_id: Seq<char>,
    pub media_ssrc: u32,
}

impl View for PublishedTrack {
    type V = TrackView;

    open spec fn view(&self) -> TrackView {
        TrackView {
            name: self.name@,
            session_id: self.session_id@,
            media_ssrc: self.media_ssrc,
        }
    }
}

/// The relay's sessions and live tracks.
pub struct Sfu {
    pub sessions: Vec<Session>,
    /// Live published tracks, by server-assigned name.
    pub tracks: Vec<PublishedTrack>,
}

/// The relay's sessions and live tracks as plain values.
#[verifier::ext_equal]
pub struct SfuView {
    pub sessions: Seq<SessionView>,
    pub tracks: Seq<TrackView>,
}

impl View for Sfu {
    type V = SfuView;

    open spec fn view(&self) -> SfuView {
        SfuView {
            sessions: self.sessions@.map_values(|s: Session| s@),
            tracks: self.tracks@.map_values(|t: PublishedTrack| t@),
        }
    }
}

/// Why the relay turns a request down.
pub enum SfuError {
    /// It holds as many sessions as it takes.
    SessionLimit,
    /// The user does.
    UserSessionLimit,
    /// There is no session with this id.
    UnknownSession(String),
    /// The offer has no media section with this mid.
    MidNotInOffer(String),
    /// The session has pulled this track before.
    AlreadyPulled(String),
    /// No track of this name went live in time.
    TrackNotAvailable(String),
    /// The pulled track of this name was given no media section.
    NoMid(String),
    /// The offer is no session description, for this reason.
    BadOffer(String),
    /// The answer is no session description, for this reason.
    BadAnswer(String),
    /// A track could not be added to a connection, for this reason.
    AddTrack { name: String, reason: String },
}

/// Why the relay turns a request down, as plain values.
pub enum SfuErrorView {
    SessionLimit,
    UserSessionLimit,
    UnknownSession(Seq<char>),
    MidNotInOffer(Seq<char>),
    AlreadyPulled(Seq<char>),
    TrackNotAvailable(Seq<char>),
    NoMid(Seq<char>),
    BadOffer(Seq<char>),
    BadAnswer(Seq<char>),
    AddTrack { name: Seq<char>, reason: Seq<char> },
}

impl View for SfuError {
    type V = SfuErrorView;

    open spec fn view(&self) -> SfuErrorView {
        match *self {
            SfuError::SessionLimit => SfuErrorView::SessionLimit,
            SfuError::UserSessionLimit => SfuErrorView::UserSessionLimit,
            SfuError::UnknownSession(id) => SfuErrorView::UnknownSession(id@),
            SfuError::MidNotInOffer(mid) => SfuErrorView::MidNotInOffer(mid@),
            SfuError::AlreadyPulled(name) => SfuErrorView::AlreadyPulled(name@),
            SfuError::TrackNotAvailable(name) => SfuErrorView::TrackNotAvailable(name@),
            SfuError::NoMid(name) => SfuErrorView::NoMid(name@),
            SfuError::BadOffer(reason) => SfuErrorView::BadOffer(reason@),
            SfuError::BadAnswer(reason) => SfuErrorView::BadAnswer(reason@),
            SfuError::AddTrack { name, reason } => SfuErrorView::AddTrack {
                name: name@,
                reason: reason@,
            },
        }
    }
}

impl SfuErrorView {
    /// The error in words.
    pub open spec fn message(self) -> Seq<char> {
        match self {
            SfuErrorView::SessionLimit => "sfu session limit reached"@,
            SfuErrorView::UserSessionLimit => "per-user sfu session limit reached"@,
            SfuErrorView::UnknownSession(id) => "unknown sfu session "@ + id,
            SfuErrorView::MidNotInOffer(mid) => "mid "@ + mid + " not present in the offer"@,
            SfuErrorView::AlreadyPulled(name) => "track "@ + name
                + " already pulled into this session"@,
            SfuErrorView::TrackNotAvailable(name) => "published track "@ + name
                + " not available"@,
            SfuErrorView::NoMid(name) => "no mid assigned for pulled track "@ + name,
            SfuErrorView::BadOffer(reason) => "bad offer sdp: "@ + reason,
            SfuErrorView::BadAnswer(reason) => "bad answer sdp: "@ + reason,
            SfuErrorView::AddTrack { name, reason } => "add track "@ + name + ": "@ + reason,
        }
    }
}

impl SfuError {
    /// The error in words.
    pub fn message(&self) -> (r: String)
        ensures
            r@ == self@.message(),
    {
        match self {
            SfuError::SessionLimit => text::owned("sfu session limit reached"),
            SfuError::UserSessionLimit => text::owned("per-user sfu session limit reached"),
            SfuError::UnknownSession(id) => text::joined("unknown sfu session ", id.as_str()),
            SfuError::MidNotInOffer(mid) => {
                let mut r = text::joined("mid ", mid.as_str());
                r.append(" not present in the offer");
                r
            },
            SfuError::AlreadyPulled(name) => {
                let mut r = text::joined("track ", name.as_str());
                r.append(" already pulled into this session");
                r
            },
            SfuError::TrackNotAvailable(name) => {
                let mut r = text::joined("published track ", name.as_str());
                r.append(" not available");
                r
            },
            SfuError::NoMid(name) => text::joined(
                "no mid assigned for pulled track ",
                name.as_str(),
            ),
            SfuError::BadOffer(reason) => text::joined("bad offer sdp: ", reason.as_str()),
            SfuError::BadAnswer(reason) => text::joined("bad answer sdp: ", reason.as_str()),
            SfuError::AddTrack { name, reason } => {
                let mut r = text::joined("add track ", name.as_str());
                r.append(": ");
                r.append(reason.as_str());
                r
            },
        }
    }
}

/// A session description of webrtc, as it is handed to a peer connection.
#[verifier::external_type_specification]
#[verifier::external_body]
pub struct ExRTCSessionDescription(RTCSessionDescription);

/// What `RTCSessionDescription::offer` makes of a text: the offer that it describes,
/// or why it describes none.
pub uninterp spec fn read_as_offer(sdp: Seq<char>) -> Result<RTCSessionDescription, Seq<char>>;

/// What `RTCSessionDescription::answer` makes of a text: the answer that it
/// describes, or why it describes none.
pub uninterp spec fn read_as_answer(sdp: Seq<char>) -> Result<RTCSessionDescription, Seq<char>>;

/// A result with its error as plain text.
pub open spec fn plain_reason(r: Result<RTCSessionDescription, String>) -> Result<
    RTCSessionDescription,
    Seq<char>,
> {
    match r {
        Ok(d) => Ok(d),
        Err(reason) => Err(reason@),
    }
}

/// `RTCSessionDescription::offer`: the description that it gives, made of the kind,
/// the text and what it reads out of the text, and what it says of a text that it
/// cannot read depend on the text alone.
#[verifier::external_body]
fn read_offer(sdp: &str) -> (r: Result<RTCSessionDescription, String>)
    ensures
        plain_reason(r) == read_as_offer(sdp@),
{
    RTCSessionDescription::offer(sdp.to_string()).map_err(|e| e.to_string())
}

/// `RTCSessionDescription::answer`: the description that it gives, made of the kind,
/// the text and what it reads out of the text, and what it says of a text that it
/// cannot read depend on the text alone.
#[verifier::external_body]
fn read_answer(sdp: &str) -> (r: Result<RTCSessionDescription, String>)
    ensures
        plain_reason(r) == read_as_answer(sdp@),
{
    RTCSessionDescription::answer(sdp.to_string()).map_err(|e| e.to_string())
}

/// A result with its error as plain values.
pub open spec fn plain<T>(r: Result<T, SfuError>) -> Result<T, SfuErrorView> {
    match r {
        Ok(value) => Ok(value),
        Err(e) => Err(e@),
    }
}

/// The offer that was read, or the error that there is none.
pub open spec fn offer_taken<T>(read: Result<T, Seq<char>>) -> Result<T, SfuErrorView> {
    match read {
        Ok(offer) => Ok(offer),
        Err(reason) => Err(SfuErrorView::BadOffer(reason)),
    }
}

/// The answer that was read, or the error that there is none.
pub open spec fn answer_taken<T>(read: Result<T, Seq<char>>) -> Result<T, SfuErrorView> {
    match read {
        Ok(answer) => Ok(answer),
        Err(reason) => Err(SfuErrorView::BadAnswer(reason)),
    }
}

/// The offer that was read, or the error that it cannot be.
pub fn offer_or_error<T>(read: Result<T, String>) -> (r: Result<T, SfuError>)
    ensures
        match read {
            Ok(offer) => r == Ok::<T, SfuError>(offer),
            Err(reason) => r == Err::<T, SfuError>(SfuError::BadOffer(reason)),
        },
{
    match read {
        Ok(offer) => Ok(offer),
        Err(reason) => Err(SfuError::BadOffer(reason)),
    }
}

/// The answer that was read, or the error that it cannot be.
pub fn answer_or_error<T>(read: Result<T, String>) -> (r: Result<T, SfuError>)
    ensures
        match read {
            Ok(answer) => r == Ok::<T, SfuError>(answer),
            Err(reason) => r == Err::<T, SfuError>(SfuError::BadAnswer(reason)),
        },
{
    match read {
        Ok(answer) => Ok(answer),
        Err(reason) => Err(SfuError::BadAnswer(reason)),
    }
}

/// What stopping some tracks takes: which transceivers have to stop, and the
/// browser's offer, which is answered once they have.
pub struct Unsubscribe {
    pub stop: Vec<usize>,
    pub offer: Result<RTCSessionDescription, SfuError>,
}

/// The first session with this id.
pub open spec fn session_at(sessions: Seq<SessionView>, id: Seq<char>) -> Option<int> {
    search::first_at(sessions, |s: SessionView| s.id == id)
}

/// The first track with this name.
pub open spec fn track_at(tracks: Seq<TrackView>, name: Seq<char>) -> Option<int> {
    search::first_at(tracks, |t: TrackView| t.name == name)
}

/// A pair for this media section.
pub open spec fn for_mid(mid: Seq<char>) -> spec_fn((Seq<char>, Seq<char>)) -> bool {
    |p: (Seq<char>, Seq<char>)| p.0 == mid
}

/// The first pair for this media section.
pub open spec fn pair_at(pairs: Seq<(Seq<char>, Seq<char>)>, mid: Seq<char>) -> Option<int> {
    search::first_at(pairs, for_mid(mid))
}

/// The pairs with one added: in place of the one for its media section, or behind
/// the others.
pub open spec fn with_pair(
    pairs: Seq<(Seq<char>, Seq<char>)>,
    pair: (Seq<char>, Seq<char>),
) -> Seq<(Seq<char>, Seq<char>)> {
    match pair_at(pairs, pair.0) {
        Some(i) => pairs.update(i, pair),
        None => pairs.push(pair),
    }
}

/// The pairs with some added, one after the other.
pub open spec fn with_pairs(
    pairs: Seq<(Seq<char>, Seq<char>)>,
    added: Seq<(Seq<char>, Seq<char>)>,
) -> Seq<(Seq<char>, Seq<char>)>
    decreases added.len(),
{
    if added.len() == 0 {
        pairs
    } else {
        with_pair(with_pairs(pairs, added.drop_last()), added.last())
    }
}

/// How many of the sessions belong to this user.
pub open spec fn sessions_of(sessions: Seq<SessionView>, owner: Seq<char>) -> nat
    decreases sessions.len(),
{
    if sessions.len() == 0 {
        0
    } else {
        sessions_of(sessions.drop_last(), owner) + owns(sessions.last(), owner)
    }
}

/// One where the session belongs to the user, else none.
pub open spec fn owns(session: SessionView, owner: Seq<char>) -> nat {
    if session.owner == owner {
        1
    } else {
        0
    }
}

/// The sessions with one added: in place of the one with its id, or behind the
/// others.
pub open spec fn with_session(sessions: Seq<SessionView>, session: SessionView) -> Seq<
    SessionView,
> {
    match session_at(sessions, session.id) {
        Some(i) => sessions.update(i, session),
        None => sessions.push(session),
    }
}

/// The sessions without the one with this id.
pub open spec fn without_session(sessions: Seq<SessionView>, id: Seq<char>) -> Seq<SessionView> {
    match session_at(sessions, id) {
        Some(i) => sessions.remove(i),
        None => sessions,
    }
}

/// The tracks with one added: in place of the one with its name, or behind the
/// others.
pub open spec fn with_track(tracks: Seq<TrackView>, track: TrackView) -> Seq<TrackView> {
    match track_at(tracks, track.name) {
        Some(i) => tracks.update(i, track),
        None => tracks.push(track),
    }
}

/// The tracks without the one with this name.
pub open spec fn without_track(tracks: Seq<TrackView>, name: Seq<char>) -> Seq<TrackView> {
    match track_at(tracks, name) {
        Some(i) => tracks.remove(i),
        None => tracks,
    }
}

/// A session right after it was opened: it publishes and pulls nothing.
pub open spec fn fresh_session(id: Seq<char>, owner: Seq<char>, created_at: u64) -> SessionView {
    SessionView {
        id,
        owner,
        published: Seq::empty(),
        subscribed: Set::empty(),
        created_at,
    }
}

impl SfuView {
    /// No two sessions have the same id, no two tracks the same name, and no
    /// limit on sessions is exceeded.
    pub open spec fn wf(self) -> bool {
        &&& forall|i: int, j: int|
            0 <= i < j < self.sessions.len() ==> #[trigger] self.sessions[i].id
                != #[trigger] self.sessions[j].id
        &&& forall|i: int, j: int|
            0 <= i < j < self.tracks.len() ==> #[trigger] self.tracks[i].name
                != #[trigger] self.tracks[j].name
        &&& self.sessions.len() <= MAX_SESSIONS_TOTAL
        &&& forall|owner: Seq<char>| #[trigger]
            sessions_of(self.sessions, owner) <= MAX_SESSIONS_PER_USER
    }

    /// The session with this id, if there is one.
    pub open spec fn session(self, id: Seq<char>) -> Option<SessionView> {
        match session_at(self.sessions, id) {
            Some(i) => Some(self.sessions[i]),
            None => None,
        }
    }

    /// The relay with a session in place of the one with its id.
    pub open spec fn with(self, session: SessionView) -> SfuView {
        SfuView { sessions: with_session(self.sessions, session), ..self }
    }

    /// Why a publication is turned down, if it is.
    pub open spec fn publish_refusal(
        self,
        session_id: Seq<char>,
        offer_sdp: Seq<char>,
        tracks: Seq<(Seq<char>, Seq<char>)>,
    ) -> Option<SfuErrorView> {
        match self.session(session_id) {
            None => Some(SfuErrorView::UnknownSession(session_id)),
            Some(_) => match first_unoffered(offer_sdp, tracks) {
                Some(mid) => Some(SfuErrorView::MidNotInOffer(mid)),
                None => None,
            },
        }
    }

    /// The track that a media section of a session carries.
    pub open spec fn track_for(self, session_id: Seq<char>, mid: Seq<char>) -> Option<Seq<char>> {
        match self.session(session_id) {
            Some(session) => match pair_at(session.published, mid) {
                Some(i) => Some(session.published[i].1),
                None => None,
            },
            None => None,
        }
    }

    /// Why a pull is turned down before anything is touched, if it is.
    pub open spec fn subscribe_refusal(
        self,
        session_id: Seq<char>,
        names: Seq<Seq<char>>,
    ) -> Option<SfuErrorView> {
        match self.session(session_id) {
            None => Some(SfuErrorView::UnknownSession(session_id)),
            Some(session) => match first_in(names, session.subscribed) {
                Some(name) => Some(SfuErrorView::AlreadyPulled(name)),
                None => None,
            },
        }
    }

    /// Why this user may not open another session, if that is so.
    pub open spec fn limit(self, owner: Seq<char>) -> Option<SfuErrorView> {
        if self.sessions.len() >= MAX_SESSIONS_TOTAL {
            Some(SfuErrorView::SessionLimit)
        } else if sessions_of(self.sessions, owner) >= MAX_SESSIONS_PER_USER {
            Some(SfuErrorView::UserSessionLimit)
        } else {
            None
        }
    }
}

/// `session_at` finds a session with the id exactly where there is one, and then
/// the first.
pub proof fn session_at_finds(sessions: Seq<SessionView>, id: Seq<char>)
    ensures
        match session_at(sessions, id) {
            Some(i) => 0 <= i < sessions.len() && sessions[i].id == id && forall|j: int|
                0 <= j < i ==> (#[trigger] sessions[j]).id != id,
            None => forall|j: int| 0 <= j < sessions.len() ==> (#[trigger] sessions[j]).id != id,
        },
{
    search::first_at_finds(sessions, |s: SessionView| s.id == id);
}

/// `track_at` finds a track with the name exactly where there is one, and then
/// the first.
pub proof fn track_at_finds(tracks: Seq<TrackView>, name: Seq<char>)
    ensures
        match track_at(tracks, name) {
            Some(i) => 0 <= i < tracks.len() && tracks[i].name == name && forall|j: int|
                0 <= j < i ==> (#[trigger] tracks[j]).name != name,
            None => forall|j: int| 0 <= j < tracks.len() ==> (#[trigger] tracks[j]).name != name,
        },
{
    search::first_at_finds(tracks, |t: TrackView| t.name == name);
}

/// `pair_at` finds a pair for the media section exactly where there is one, and
/// then the first.
pub proof fn pair_at_finds(pairs: Seq<(Seq<char>, Seq<char>)>, mid: Seq<char>)
    ensures
        match pair_at(pairs, mid) {
            Some(i) => 0 <= i < pairs.len() && pairs[i].0 == mid && forall|j: int|
                0 <= j < i ==> (#[trigger] pairs[j]).0 != mid,
            None => forall|j: int| 0 <= j < pairs.len() ==> (#[trigger] pairs[j]).0 != mid,
        },
{
    search::first_at_finds(pairs, for_mid(mid));
}

proof fn sessions_of_update(
    sessions: Seq<SessionView>,
    owner: Seq<char>,
    i: int,
    session: SessionView,
)
    requires
        0 <= i < sessions.len(),
    ensures
        sessions_of(sessions.update(i, session), owner) + owns(sessions[i], owner) == sessions_of(
            sessions,
            owner,
        ) + owns(session, owner),
    decreases sessions.len(),
{
    let changed = sessions.update(i, session);
    if i == sessions.len() - 1 {
        assert(changed.drop_last() == sessions.drop_last());
    } else {
        sessions_of_update(sessions.drop_last(), owner, i, session);
        assert(changed.drop_last() == sessions.drop_last().update(i, session));
    }
}

proof fn sessions_of_remove(sessions: Seq<SessionView>, owner: Seq<char>, i: int)
    requires
        0 <= i < sessions.len(),
    ensures
        sessions_of(sessions.remove(i), owner) + owns(sessions[i], owner) == sessions_of(
            sessions,
            owner,
        ),
    decreases sessions.len(),
{
    if i == sessions.len() - 1 {
        assert(sessions.remove(i) == sessions.drop_last());
    } else {
        sessions_of_remove(sessions.drop_last(), owner, i);
        assert(sessions.remove(i).drop_last() == sessions.drop_last().remove(i));
    }
}

/// Opening a session that no limit forbids keeps the books in order.
proof fn open_keeps_wf(s: SfuView, session: SessionView)
    requires
        s.wf(),
        s.limit(session.owner) is None,
    ensures
        s.with(session).wf(),
{
    let after = s.with(session);
    session_at_finds(s.sessions, session.id);
    assert forall|owner: Seq<char>| #[trigger] sessions_of(after.sessions, owner)
        <= MAX_SESSIONS_PER_USER by {
        assert(sessions_of(s.sessions, owner) <= MAX_SESSIONS_PER_USER);
        match session_at(s.sessions, session.id) {
            Some(i) => {
                sessions_of_update(s.sessions, owner, i, session);
            },
            None => {
                assert(s.sessions.push(session).drop_last() == s.sessions);
            },
        }
    }
}

/// Changing what a session publishes or pulls keeps the books in order.
proof fn change_keeps_wf(s: SfuView, session: SessionView)
    requires
        s.wf(),
        s.session(session.id) matches Some(before) && before.owner == session.owner,
    ensures
        s.with(session).wf(),
{
    let after = s.with(session);
    session_at_finds(s.sessions, session.id);
    let i = session_at(s.sessions, session.id)->0;
    assert forall|owner: Seq<char>| #[trigger] sessions_of(after.sessions, owner)
        <= MAX_SESSIONS_PER_USER by {
        assert(sessions_of(s.sessions, owner) <= MAX_SESSIONS_PER_USER);
        sessions_of_update(s.sessions, owner, i, session);
    }
}

/// Closing a session keeps the books in order.
proof fn close_keeps_wf(s: SfuView, i: int)
    requires
        s.wf(),
        0 <= i < s.sessions.len(),
    ensures
        (SfuView { sessions: s.sessions.remove(i), ..s }).wf(),
{
    let after = s.sessions.remove(i);
    assert forall|owner: Seq<char>| #[trigger] sessions_of(after, owner)
        <= MAX_SESSIONS_PER_USER by {
        assert(sessions_of(s.sessions, owner) <= MAX_SESSIONS_PER_USER);
        sessions_of_remove(s.sessions, owner, i);
    }
}

impl Sfu {
    /// A relay without sessions.
    pub fn new() -> (r: Sfu)
        ensures
            r@ == (SfuView { sessions: Seq::empty(), tracks: Seq::empty() }),
            r@.wf(),
    {
        let r = Sfu { sessions: Vec::new(), tracks: Vec::new() };
        assert(r@ == (SfuView { sessions: Seq::empty(), tracks: Seq::empty() }));
        r
    }

    /// Where the session with this id stands.
    fn session_index(&self, session_id: &str) -> (r: Option<usize>)
        ensures
            match r {
                Some(i) => session_at(self@.sessions, session_id@) == Some(i as int),
                None => session_at(self@.sessions, session_id@) is None,
            },
            r matches Some(i) ==> i < self.sessions@.len() && self.sessions@[i as int].id@
                == session_id@,
    {
        let ghost sessions = self@.sessions;
        let mut i: usize = 0;
        while i < self.sessions.len()
            invariant
                i <= self.sessions@.len(),
                sessions == self@.sessions,
                forall|j: int| 0 <= j < i ==> (#[trigger] sessions[j]).id != session_id@,
            decreases self.sessions.len() - i,
        {
            assert(sessions[i as int] == self.sessions@[i as int]@);
            if text::same_text(self.sessions[i].id.as_str(), session_id) {
                proof {
                    session_at_finds(sessions, session_id@);
                }
                return Some(i);
            }
            i += 1;
        }
        proof {
            session_at_finds(sessions, session_id@);
        }
        None
    }

    /// Where the track with this name stands.
    fn track_index(&self, name: &str) -> (r: Option<usize>)
        ensures
            match r {
                Some(i) => track_at(self@.tracks, name@) == Some(i as int),
                None => track_at(self@.tracks, name@) is None,
            },
            r matches Some(i) ==> i < self.tracks@.len() && self.tracks@[i as int].name@ == name@,
    {
        let ghost tracks = self@.tracks;
        let mut i: usize = 0;
        while i < self.tracks.len()
            invariant
                i <= self.tracks@.len(),
                tracks == self@.tracks,
                forall|j: int| 0 <= j < i ==> (#[trigger] tracks[j]).name != name@,
            decreases self.tracks.len() - i,
        {
            assert(tracks[i as int] == self.tracks@[i as int]@);
            if text::same_text(self.tracks[i].name.as_str(), name) {
                proof {
                    track_at_finds(tracks, name@);
                }
                return Some(i);
            }
            i += 1;
        }
        proof {
            track_at_finds(tracks, name@);
        }
        None
    }

    /// Whether this user may open another session.
    pub fn check_limits(&self, owner: &str) -> (r: Result<(), SfuError>)
        ensures
            match r {
                Ok(_) => self@.limit(owner@) is None,
                Err(e) => self@.limit(owner@) == Some(e@),
            },
    {
        if self.sessions.len() >= MAX_SESSIONS_TOTAL {
            return Err(SfuError::SessionLimit);
        }
        let ghost sessions = self@.sessions;
        let mut owned: usize = 0;
        let mut i: usize = 0;
        assert(sessions.take(0) == Seq::<SessionView>::empty());
        while i < self.sessions.len()
            invariant
                i <= self.sessions.len(),
                owned <= i,
                sessions == self@.sessions,
                owned == sessions_of(sessions.take(i as int), owner@),
            decreases self.sessions.len() - i,
        {
            assert(sessions.take(i + 1).drop_last() == sessions.take(i as int));
            if text::same_text(self.sessions[i].owner.as_str(), owner) {
                owned += 1;
            }
            i += 1;
        }
        assert(sessions.take(i as int) == sessions);
        if owned >= MAX_SESSIONS_PER_USER {
            return Err(SfuError::UserSessionLimit);
        }
        Ok(())
    }

    /// The id for a new session of a user, of sixteen random bytes, unless a limit
    /// forbids another one.
    pub fn allocate(&self, owner: &str) -> (r: Result<String, SfuError>)
        ensures
            match r {
                Ok(id) => self@.limit(owner@) is None && exists|random: Seq<u8>|
                    random.len() == 16 && id@ == #[trigger] config::hex_text(random),
                Err(e) => self@.limit(owner@) == Some(e@),
            },
    {
        match self.check_limits(owner) {
            Ok(_) => Ok(auth::random_id(16)),
            Err(e) => Err(e),
        }
    }

    /// Enters a new session of a user, unless a limit forbids it.
    pub fn new_session(&mut self, session_id: String, owner: &str, created_at: u64) -> (r: Result<
        (),
        SfuError,
    >)
        requires
            old(self)@.wf(),
        ensures
            final(self)@.wf(),
            match r {
                Ok(_) => {
                    &&& old(self)@.limit(owner@) is None
                    &&& final(self)@ == old(self)@.with(
                        fresh_session(session_id@, owner@, created_at),
                    )
                },
                Err(e) => old(self)@.limit(owner@) == Some(e@) && final(self)@ == old(self)@,
            },
            r is Ok ==> (final(self)@.session(session_id@) matches Some(session) && {
                &&& session.id == session_id@
                &&& session.owner == owner@
                &&& session.published.len() == 0
                &&& session.subscribed.is_empty()
                &&& session.created_at == created_at
            }),
    {
        let limits = self.check_limits(owner);
        if limits.is_err() {
            return limits;
        }
        let ghost before = self@;
        let at = self.session_index(session_id.as_str());
        let session = Session {
            id: session_id,
            owner: text::owned(owner),
            published: Vec::new(),
            subscribed: Vec::new(),
            created_at,
        };
        proof {
            assert(text::texts(session.subscribed@) == Seq::<Seq<char>>::empty());
            assert(session@.subscribed == Set::<Seq<char>>::empty());
            assert(session@ == fresh_session(session_id@, owner@, created_at));
            open_keeps_wf(before, session@);
        }
        let ghost entered = session@;
        match at {
            Some(i) => {
                self.sessions.set(i, session);
            },
            None => {
                self.sessions.push(session);
            },
        }
        assert(self@ == before.with(entered));
        proof {
            with_touches_one_session(before, entered, session_id@);
        }
        Ok(())
    }

    /// Publisher leg: remembers which media section of the offer carries which
    /// server-assigned track, and reads the offer. A section that is not in the
    /// offer would leave a share that nothing can ever pull, so it is turned down.
    /// The sections are remembered before the offer is read.
    pub fn publish(&mut self, session_id: &str, offer_sdp: &str, tracks: &[(String, String)]) -> (r:
        Result<RTCSessionDescription, SfuError>)
        requires
            old(self)@.wf(),
        ensures
            final(self)@.wf(),
            match old(self)@.publish_refusal(session_id@, offer_sdp@, pair_views(tracks@)) {
                Some(refusal) => plain(r) == Err::<RTCSessionDescription, SfuErrorView>(refusal)
                    && final(self)@ == old(self)@,
                None => {
                    let before = old(self)@.session(session_id@)->0;
                    &&& plain(r) == offer_taken(read_as_offer(offer_sdp@))
                    &&& final(self)@ == old(self)@.with(
                        SessionView {
                            published: with_pairs(before.published, pair_views(tracks@)),
                            ..before
                        },
                    )
                    &&& match read_as_offer(offer_sdp@) {
                        Ok(offer) => r == Ok::<RTCSessionDescription, SfuError>(offer),
                        Err(why) => r matches Err(SfuError::BadOffer(reason)) && reason@ == why,
                    }
                },
            },
    {
        let i = match self.session_index(session_id) {
            Some(i) => i,
            None => {
                return Err(SfuError::UnknownSession(text::owned(session_id)));
            },
        };
        let ghost before = self@;
        proof {
            session_at_finds(before.sessions, session_id@);
            assert(before.sessions[i as int] == self.sessions@[i as int]@);
        }
        if let Some(mid) = find_unoffered(offer_sdp, tracks) {
            return Err(SfuError::MidNotInOffer(mid));
        }
        let ghost session = before.sessions[i as int];
        let ghost added = pair_views(tracks@);
        let mut k: usize = 0;
        assert(added.take(0) == Seq::<(Seq<char>, Seq<char>)>::empty());
        assert(before.sessions.update(i as int, session) == before.sessions);
        while k < tracks.len()
            invariant
                k <= tracks@.len(),
                i < self.sessions@.len(),
                added == pair_views(tracks@),
                i < before.sessions.len(),
                session == before.sessions[i as int],
                self@ == (SfuView {
                    sessions: before.sessions.update(
                        i as int,
                        SessionView {
                            published: with_pairs(session.published, added.take(k as int)),
                            ..session
                        },
                    ),
                    ..before
                }),
            decreases tracks.len() - k,
        {
            let ghost then = self@;
            assert(then.sessions[i as int] == self.sessions@[i as int]@);
            assert(added.take(k + 1).drop_last() == added.take(k as int));
            assert(added[k as int] == (tracks@[k as int].0@, tracks@[k as int].1@));
            insert_pair(
                &mut self.sessions[i].published,
                tracks[k].0.clone(),
                tracks[k].1.clone(),
            );
            proof {
                let next = SessionView {
                    published: with_pairs(session.published, added.take(k + 1)),
                    ..session
                };
                assert(self.sessions@[i as int]@ == next);
                assert(self@.sessions == then.sessions.update(i as int, next));
                assert(self@.sessions == before.sessions.update(i as int, next));
            }
            k += 1;
        }
        assert(added.take(k as int) == added);
        proof {
            change_keeps_wf(
                before,
                SessionView { published: with_pairs(session.published, added), ..session },
            );
        }
        offer_or_error(read_offer(offer_sdp))
    }

    /// The name of the track that arrives on a media section of a session, if the
    /// session published one there.
    pub fn published_track(&self, session_id: &str, mid: &str) -> (r: Option<String>)
        ensures
            text::opt_text(r) == self@.track_for(session_id@, mid@),
    {
        let i = match self.session_index(session_id) {
            Some(i) => i,
            None => {
                return None;
            },
        };
        assert(self@.sessions[i as int] == self.sessions@[i as int]@);
        let published = &self.sessions[i].published;
        match pair_index(published, mid) {
            Some(k) => {
                assert(pair_views(published@)[k as int].1 == published@[k as int].1@);
                Some(published[k].1.clone())
            },
            None => None,
        }
    }

    /// Viewer leg: a session's pull of these tracks, at its start. A repeat pull would
    /// silently duplicate media, so it is turned down.
    pub fn subscribe(&self, session_id: &str, track_names: &[String]) -> (r: Result<
        Pull,
        SfuError,
    >)
        ensures
            match r {
                Ok(p) => {
                    &&& self@.subscribe_refusal(session_id@, text::texts(track_names@)) is None
                    &&& p@ == pull::started(text::texts(track_names@))
                    &&& p@.wf()
                },
                Err(e) => self@.subscribe_refusal(session_id@, text::texts(track_names@)) == Some(
                    e@,
                ),
            },
    {
        let i = match self.session_index(session_id) {
            Some(i) => i,
            None => {
                return Err(SfuError::UnknownSession(text::owned(session_id)));
            },
        };
        assert(self@.sessions[i as int] == self.sessions@[i as int]@);
        match find_in(track_names, &self.sessions[i].subscribed) {
            Some(name) => Err(SfuError::AlreadyPulled(name)),
            None => Ok(Pull::new(track_names)),
        }
    }

    /// Viewer leg: the tracks have been added to the connection, each with the
    /// media section that the offer gave it. Pairs the two up and remembers the
    /// tracks as pulled. A session that was closed meanwhile stays closed.
    pub fn commit_subscribe(
        &mut self,
        session_id: &str,
        added: Vec<(Option<String>, String)>,
    ) -> (r: Result<Vec<(String, String)>, SfuError>)
        requires
            old(self)@.wf(),
        ensures
            final(self)@.wf(),
            match r {
                Ok(pairs) => {
                    &&& first_without_mid(added_views(added@)) is None
                    &&& pair_views(pairs@) == paired(added_views(added@))
                    &&& pairs@.len() == added@.len()
                    &&& forall|i: int|
                        0 <= i < added@.len() ==> {
                            &&& (#[trigger] added@[i]).0 is Some
                            &&& pairs@[i].0@ == added@[i].0->0@
                            &&& pairs@[i].1@ == added@[i].1@
                        }
                    &&& final(self)@ == (match old(self)@.session(session_id@) {
                        Some(session) => old(self)@.with(
                            SessionView {
                                subscribed: session.subscribed.union(
                                    names_of(pair_views(pairs@)).to_set(),
                                ),
                                ..session
                            },
                        ),
                        None => old(self)@,
                    })
                },
                Err(e) => {
                    &&& first_without_mid(added_views(added@)) matches Some(name)
                    &&& e@ == SfuErrorView::NoMid(name)
                    &&& final(self)@ == old(self)@
                    &&& exists|i: int|
                        0 <= i < added@.len() && (#[trigger] added@[i]).0 is None
                },
            },
    {
        proof {
            added_tracks_are_paired_in_order(added_views(added@));
            let views = added_views(added@);
            assert forall|i: int| 0 <= i < added@.len() implies views[i] == (
                text::opt_text((#[trigger] added@[i]).0),
                added@[i].1@,
            ) by {}
        }
        let pairs = match pair_up(added) {
            Ok(pairs) => pairs,
            Err(name) => {
                return Err(SfuError::NoMid(name));
            },
        };
        proof {
            let views = added_views(added@);
            let made = pair_views(pairs@);
            assert(pairs@.len() == made.len());
            assert forall|i: int| 0 <= i < added@.len() implies {
                &&& (#[trigger] added@[i]).0 is Some
                &&& pairs@[i].0@ == added@[i].0->0@
                &&& pairs@[i].1@ == added@[i].1@
            } by {
                assert(views[i] == (text::opt_text(added@[i].0), added@[i].1@));
                assert(made[i] == (pairs@[i].0@, pairs@[i].1@));
            }
        }
        let ghost before = self@;
        let ghost names = names_of(pair_views(pairs@));
        if let Some(i) = self.session_index(session_id) {
            proof {
                session_at_finds(before.sessions, session_id@);
                assert(before.sessions[i as int] == self.sessions@[i as int]@);
            }
            let ghost session = before.sessions[i as int];
            let mut k: usize = 0;
            proof {
                assert(names.take(0).to_set() == Set::<Seq<char>>::empty());
                assert(session.subscribed.union(Set::empty()) == session.subscribed);
                assert(before.sessions.update(i as int, session) == before.sessions);
            }
            while k < pairs.len()
                invariant
                    k <= pairs@.len(),
                    i < self.sessions@.len(),
                    i < before.sessions.len(),
                    session == before.sessions[i as int],
                    names == names_of(pair_views(pairs@)),
                    self@ == (SfuView {
                        sessions: before.sessions.update(
                            i as int,
                            SessionView {
                                subscribed: session.subscribed.union(names.take(k as int).to_set()),
                                ..session
                            },
                        ),
                        ..before
                    }),
                decreases pairs.len() - k,
            {
                let ghost then = self@;
                assert(then.sessions[i as int] == self.sessions@[i as int]@);
                assert(names[k as int] == pairs@[k as int].1@);
                insert_name(&mut self.sessions[i].subscribed, pairs[k].1.clone());
                proof {
                    assert(names.take(k + 1) == names.take(k as int).push(names[k as int]));
                    names.take(k as int).lemma_push_to_set_commute(names[k as int]);
                    assert(session.subscribed.union(names.take(k + 1).to_set())
                        == session.subscribed.union(names.take(k as int).to_set()).insert(
                        names[k as int],
                    ));
                    let next = SessionView {
                        subscribed: session.subscribed.union(names.take(k + 1).to_set()),
                        ..session
                    };
                    assert(self.sessions@[i as int]@ == next);
                    assert(self@.sessions == then.sessions.update(i as int, next));
                    assert(self@.sessions == before.sessions.update(i as int, next));
                }
                k += 1;
            }
            proof {
                assert(names.take(k as int) == names);
                change_keeps_wf(
                    before,
                    SessionView {
                        subscribed: session.subscribed.union(names.to_set()),
                        ..session
                    },
                );
            }
        }
        Ok(pairs)
    }

    /// Viewer leg: which of a connection's transceivers have to stop, given the
    /// media sections that the browser stopped, and the offer that it made of it. The
    /// transceivers stop even where the offer cannot be read; what they carried then
    /// still counts as pulled.
    pub fn unsubscribe(
        &self,
        session_id: &str,
        transceiver_mids: &[Option<String>],
        mids: &[String],
        offer_sdp: &str,
    ) -> (r: Result<Unsubscribe, SfuError>)
        ensures
            match r {
                Ok(u) => {
                    &&& self@.session(session_id@) is Some
                    &&& picked_positions(u.stop@) == to_stop(transceiver_mids@, text::texts(mids@))
                    &&& forall|i: int|
                        0 <= i < transceiver_mids@.len() ==> (u.stop@.contains(i as usize) <==> (
                        #[trigger] transceiver_mids@[i]) is Some && text::texts(mids@).contains(
                            transceiver_mids@[i]->0@,
                        ))
                    &&& plain(u.offer) == offer_taken(read_as_offer(offer_sdp@))
                    &&& match read_as_offer(offer_sdp@) {
                        Ok(offer) => u.offer == Ok::<RTCSessionDescription, SfuError>(offer),
                        Err(why) => u.offer matches Err(SfuError::BadOffer(reason)) && reason@
                            == why,
                    }
                },
                Err(e) => {
                    &&& self@.session(session_id@) is None
                    &&& e@ == SfuErrorView::UnknownSession(session_id@)
                },
            },
    {
        if self.session_index(session_id).is_none() {
            return Err(SfuError::UnknownSession(text::owned(session_id)));
        }
        let mut picked: Vec<usize> = Vec::new();
        let mut i: usize = 0;
        assert(transceiver_mids@.take(0) == Seq::<Option<String>>::empty());
        while i < transceiver_mids.len()
            invariant
                i <= transceiver_mids@.len(),
                picked_positions(picked@) == to_stop(
                    transceiver_mids@.take(i as int),
                    text::texts(mids@),
                ),
            decreases transceiver_mids.len() - i,
        {
            assert(transceiver_mids@.take(i + 1).drop_last() == transceiver_mids@.take(i as int));
            let stops = match &transceiver_mids[i] {
                Some(mid) => text::lists(mids, mid.as_str()),
                None => false,
            };
            if stops {
                let ghost before = picked@;
                picked.push(i);
                assert(picked_positions(picked@) == picked_positions(before).push(i as int));
            }
            i += 1;
        }
        assert(transceiver_mids@.take(i as int) == transceiver_mids@);
        proof {
            let all = to_stop(transceiver_mids@, text::texts(mids@));
            exactly_the_stopped_sections_stop(transceiver_mids@, text::texts(mids@));
            assert forall|n: int| 0 <= n < transceiver_mids@.len() implies (picked@.contains(
                n as usize,
            ) <==> (#[trigger] transceiver_mids@[n]) is Some && text::texts(mids@).contains(
                transceiver_mids@[n]->0@,
            )) by {
                if picked@.contains(n as usize) {
                    let k: int = picked@.index_of(n as usize);
                    assert(all[k] == n);
                    assert(all.contains(n));
                }
                if all.contains(n) {
                    let k: int = all.index_of(n);
                    assert(picked_positions(picked@)[k] == n);
                    assert(picked@[k] == n as usize);
                }
            }
        }
        Ok(Unsubscribe { stop: picked, offer: offer_or_error(read_offer(offer_sdp)) })
    }

    /// Viewer leg: the answer that stops these tracks is out. Only now may they
    /// be pulled again without duplicating media.
    pub fn commit_unsubscribe(&mut self, session_id: &str, names: &[String])
        requires
            old(self)@.wf(),
        ensures
            final(self)@.wf(),
            final(self)@ == (match old(self)@.session(session_id@) {
                Some(session) => old(self)@.with(
                    SessionView {
                        subscribed: session.subscribed.difference(text::texts(names@).to_set()),
                        ..session
                    },
                ),
                None => old(self)@,
            }),
    {
        let ghost before = self@;
        if let Some(i) = self.session_index(session_id) {
            proof {
                session_at_finds(before.sessions, session_id@);
                assert(before.sessions[i as int] == self.sessions@[i as int]@);
            }
            let ghost session = before.sessions[i as int];
            let left = subtract(&self.sessions[i].subscribed, names);
            self.sessions[i].subscribed = left;
            proof {
                let after = SessionView {
                    subscribed: session.subscribed.difference(text::texts(names@).to_set()),
                    ..session
                };
                assert(self.sessions@[i as int]@ == after);
                assert(self@ == before.with(after));
                change_keeps_wf(before, after);
            }
        }
    }

    /// Viewer leg: reads the viewer's answer to the offer that a pull led to, for a
    /// session that is there to take it.
    pub fn accept_answer(&self, session_id: &str, answer_sdp: &str) -> (r: Result<
        RTCSessionDescription,
        SfuError,
    >)
        ensures
            plain(r) == (match self@.session(session_id@) {
                Some(_) => answer_taken(read_as_answer(answer_sdp@)),
                None => Err(SfuErrorView::UnknownSession(session_id@)),
            }),
            match (self@.session(session_id@), read_as_answer(answer_sdp@)) {
                (None, _) => r matches Err(SfuError::UnknownSession(id)) && id@ == session_id@,
                (Some(_), Ok(answer)) => r == Ok::<RTCSessionDescription, SfuError>(answer),
                (Some(_), Err(why)) => r matches Err(SfuError::BadAnswer(reason)) && reason@ == why,
            },
    {
        match self.session_index(session_id) {
            Some(_) => answer_or_error(read_answer(answer_sdp)),
            None => Err(SfuError::UnknownSession(text::owned(session_id))),
        }
    }

    /// Strikes a session out. Says whether it was there, and its connection has
    /// to be closed.
    pub fn close_session(&mut self, session_id: &str) -> (r: bool)
        requires
            old(self)@.wf(),
        ensures
            final(self)@.wf(),
            r == (old(self)@.session(session_id@) is Some),
            final(self)@ == (SfuView {
                sessions: without_session(old(self)@.sessions, session_id@),
                ..old(self)@
            }),
    {
        let ghost before = self@;
        match self.session_index(session_id) {
            Some(i) => {
                proof {
                    close_keeps_wf(before, i as int);
                }
                self.sessions.remove(i);
                assert(self@.sessions == before.sessions.remove(i as int));
                true
            },
            None => false,
        }
    }
}

/// The offer has a media section with this mid.
pub open spec fn offered(offer_sdp: Seq<char>, mid: Seq<char>) -> bool {
    text::has_line(offer_sdp, "a=mid:"@ + mid)
}

/// A track whose media section the offer does not have.
pub open spec fn unoffered(offer_sdp: Seq<char>) -> spec_fn((Seq<char>, Seq<char>)) -> bool {
    |t: (Seq<char>, Seq<char>)| !offered(offer_sdp, t.0)
}

/// The first of the media sections that the offer does not have.
pub open spec fn first_unoffered(
    offer_sdp: Seq<char>,
    tracks: Seq<(Seq<char>, Seq<char>)>,
) -> Option<Seq<char>> {
    match search::first_at(tracks, unoffered(offer_sdp)) {
        Some(i) => Some(tracks[i].0),
        None => None,
    }
}

proof fn first_unoffered_stays(
    offer_sdp: Seq<char>,
    tracks: Seq<(Seq<char>, Seq<char>)>,
    n: int,
)
    requires
        0 <= n <= tracks.len(),
        first_unoffered(offer_sdp, tracks.take(n)) is Some,
    ensures
        first_unoffered(offer_sdp, tracks) == first_unoffered(offer_sdp, tracks.take(n)),
{
    search::first_at_finds(tracks.take(n), unoffered(offer_sdp));
    search::first_at_stays(tracks, unoffered(offer_sdp), n);
}

/// The first of the media sections that the offer does not have.
fn find_unoffered(offer_sdp: &str, tracks: &[(String, String)]) -> (r: Option<String>)
    ensures
        text::opt_text(r) == first_unoffered(offer_sdp@, pair_views(tracks@)),
{
    let ghost pairs = pair_views(tracks@);
    let mut i: usize = 0;
    assert(pairs.take(0) == Seq::<(Seq<char>, Seq<char>)>::empty());
    while i < tracks.len()
        invariant
            i <= tracks@.len(),
            pairs == pair_views(tracks@),
            first_unoffered(offer_sdp@, pairs.take(i as int)) is None,
        decreases tracks.len() - i,
    {
        let line = text::joined("a=mid:", tracks[i].0.as_str());
        proof {
            assert(pairs[i as int].0 == tracks@[i as int].0@);
            assert(pairs.take(i + 1).drop_last() == pairs.take(i as int));
        }
        if !text::any_line_is(offer_sdp, line.as_str()) {
            proof {
                first_unoffered_stays(offer_sdp@, pairs, i + 1);
            }
            return Some(tracks[i].0.clone());
        }
        i += 1;
    }
    assert(pairs.take(i as int) == pairs);
    None
}

/// Where the pair for a media section stands.
fn pair_index(pairs: &Vec<(String, String)>, mid: &str) -> (r: Option<usize>)
    ensures
        match r {
            Some(i) => pair_at(pair_views(pairs@), mid@) == Some(i as int) && i < pairs@.len(),
            None => pair_at(pair_views(pairs@), mid@) is None,
        },
{
    let ghost views = pair_views(pairs@);
    let mut i: usize = 0;
    while i < pairs.len()
        invariant
            i <= pairs@.len(),
            views == pair_views(pairs@),
            forall|j: int| 0 <= j < i ==> (#[trigger] views[j]).0 != mid@,
        decreases pairs.len() - i,
    {
        assert(views[i as int].0 == pairs@[i as int].0@);
        if text::same_text(pairs[i].0.as_str(), mid) {
            proof {
                pair_at_finds(views, mid@);
            }
            return Some(i);
        }
        i += 1;
    }
    proof {
        pair_at_finds(views, mid@);
    }
    None
}

/// Adds a pair, in place of the one for its media section.
fn insert_pair(pairs: &mut Vec<(String, String)>, mid: String, name: String)
    ensures
        pair_views(final(pairs)@) == with_pair(pair_views(old(pairs)@), (mid@, name@)),
{
    let ghost before = pair_views(pairs@);
    let ghost pair = (mid@, name@);
    match pair_index(pairs, mid.as_str()) {
        Some(i) => {
            pairs.set(i, (mid, name));
            assert(pair_views(pairs@) == before.update(i as int, pair));
        },
        None => {
            pairs.push((mid, name));
            assert(pair_views(pairs@) == before.push(pair));
        },
    }
}

/// Adds a name, unless it is listed already.
fn insert_name(names: &mut Vec<String>, name: String)
    ensures
        text::texts(final(names)@).to_set() == text::texts(old(names)@).to_set().insert(name@),
{
    let ghost before = text::texts(names@);
    if !text::lists(names.as_slice(), name.as_str()) {
        let ghost added = name@;
        names.push(name);
        proof {
            assert(text::texts(names@) == before.push(added));
            before.lemma_push_to_set_commute(added);
        }
    } else {
        assert(before.to_set().contains(name@));
        assert(before.to_set().insert(name@) == before.to_set());
    }
}

/// The first of the names that the set holds.
pub open spec fn first_in(names: Seq<Seq<char>>, set: Set<Seq<char>>) -> Option<Seq<char>> {
    match search::first_at(names, |name: Seq<char>| set.contains(name)) {
        Some(i) => Some(names[i]),
        None => None,
    }
}

proof fn first_in_stays(names: Seq<Seq<char>>, set: Set<Seq<char>>, n: int)
    requires
        0 <= n <= names.len(),
        first_in(names.take(n), set) is Some,
    ensures
        first_in(names, set) == first_in(names.take(n), set),
{
    let p = |name: Seq<char>| set.contains(name);
    search::first_at_finds(names.take(n), p);
    search::first_at_stays(names, p, n);
}

/// The first of the names that are listed.
fn find_in(names: &[String], listed: &Vec<String>) -> (r: Option<String>)
    ensures
        text::opt_text(r) == first_in(text::texts(names@), text::texts(listed@).to_set()),
{
    let ghost views = text::texts(names@);
    let ghost set = text::texts(listed@).to_set();
    let mut i: usize = 0;
    assert(views.take(0) == Seq::<Seq<char>>::empty());
    while i < names.len()
        invariant
            i <= names@.len(),
            views == text::texts(names@),
            set == text::texts(listed@).to_set(),
            first_in(views.take(i as int), set) is None,
        decreases names.len() - i,
    {
        assert(views.take(i + 1).drop_last() == views.take(i as int));
        if text::lists(listed.as_slice(), names[i].as_str()) {
            proof {
                first_in_stays(views, set, i + 1);
            }
            return Some(names[i].clone());
        }
        i += 1;
    }
    assert(views.take(i as int) == views);
    None
}

/// The listed names that are not among those to drop.
fn subtract(listed: &Vec<String>, drop: &[String]) -> (r: Vec<String>)
    ensures
        text::texts(r@).to_set() == text::texts(listed@).to_set().difference(
            text::texts(drop@).to_set(),
        ),
{
    let ghost all = text::texts(listed@);
    let ghost gone = text::texts(drop@);
    let mut r: Vec<String> = Vec::new();
    let mut i: usize = 0;
    while i < listed.len()
        invariant
            i <= listed@.len(),
            all == text::texts(listed@),
            gone == text::texts(drop@),
            text::texts(r@).to_set() == all.take(i as int).to_set().difference(gone.to_set()),
        decreases listed.len() - i,
    {
        let ghost before = text::texts(r@);
        let ghost seen = all.take(i as int);
        let ghost next = all[i as int];
        if !text::lists(drop, listed[i].as_str()) {
            r.push(listed[i].clone());
            assert(text::texts(r@) == before.push(next));
        }
        proof {
            assert(all.take(i + 1) == seen.push(next));
            seen.lemma_push_to_set_commute(next);
            before.lemma_push_to_set_commute(next);
            assert(gone.to_set().contains(next) <==> gone.contains(next));
        }
        i += 1;
    }
    assert(all.take(i as int) == all);
    r
}

/// The views of added tracks: the media section, if one was given, and the name.
pub open spec fn added_views(added: Seq<(Option<String>, String)>) -> Seq<
    (Option<Seq<char>>, Seq<char>),
> {
    added.map_values(|a: (Option<String>, String)| (text::opt_text(a.0), a.1@))
}

/// The name of the first added track that was given no media section.
pub open spec fn first_without_mid(added: Seq<(Option<Seq<char>>, Seq<char>)>) -> Option<
    Seq<char>,
> {
    match search::first_at(added, |a: (Option<Seq<char>>, Seq<char>)| a.0 is None) {
        Some(i) => Some(added[i].1),
        None => None,
    }
}

/// The added tracks as pairs of media section and name, where each has both.
pub open spec fn paired(added: Seq<(Option<Seq<char>>, Seq<char>)>) -> Seq<
    (Seq<char>, Seq<char>),
> {
    added.map_values(|a: (Option<Seq<char>>, Seq<char>)| (a.0->0, a.1))
}

/// The names in some pairs of media section and name.
pub open spec fn names_of(pairs: Seq<(Seq<char>, Seq<char>)>) -> Seq<Seq<char>> {
    pairs.map_values(|p: (Seq<char>, Seq<char>)| p.1)
}

proof fn first_without_mid_stays(added: Seq<(Option<Seq<char>>, Seq<char>)>, n: int)
    requires
        0 <= n <= added.len(),
        first_without_mid(added.take(n)) is Some,
    ensures
        first_without_mid(added) == first_without_mid(added.take(n)),
{
    let p = |a: (Option<Seq<char>>, Seq<char>)| a.0 is None;
    search::first_at_finds(added.take(n), p);
    search::first_at_stays(added, p, n);
}

/// Pairs each added track with its media section, or names the first that has
/// none.
fn pair_up(added: Vec<(Option<String>, String)>) -> (r: Result<Vec<(String, String)>, String>)
    ensures
        match r {
            Ok(pairs) => first_without_mid(added_views(added@)) is None && pair_views(pairs@)
                == paired(added_views(added@)),
            Err(name) => first_without_mid(added_views(added@)) == Some(name@),
        },
{
    let ghost all = added_views(added@);
    let mut pairs: Vec<(String, String)> = Vec::new();
    let mut i: usize = 0;
    assert(all.take(0) == Seq::<(Option<Seq<char>>, Seq<char>)>::empty());
    while i < added.len()
        invariant
            i <= added@.len(),
            all == added_views(added@),
            first_without_mid(all.take(i as int)) is None,
            pair_views(pairs@) == paired(all).take(i as int),
        decreases added.len() - i,
    {
        proof {
            assert(all.take(i + 1).drop_last() == all.take(i as int));
            assert(all[i as int] == (text::opt_text(added@[i as int].0), added@[i as int].1@));
        }
        match &added[i].0 {
            Some(mid) => {
                let ghost before = pairs@;
                pairs.push((mid.clone(), added[i].1.clone()));
                proof {
                    assert(pair_views(pairs@) == pair_views(before).push((mid@, all[i as int].1)));
                    assert(paired(all).take(i + 1) == paired(all).take(i as int).push(
                        paired(all)[i as int],
                    ));
                }
            },
            None => {
                proof {
                    first_without_mid_stays(all, i + 1);
                }
                return Err(added[i].1.clone());
            },
        }
        i += 1;
    }
    assert(all.take(i as int) == all);
    assert(paired(all).take(i as int) == paired(all));
    Ok(pairs)
}

/// Positions as integers.
pub open spec fn picked_positions(picked: Seq<usize>) -> Seq<int> {
    picked.map_values(|i: usize| i as int)
}

/// The positions of the transceivers whose media section is among these.
pub open spec fn to_stop(transceiver_mids: Seq<Option<String>>, mids: Seq<Seq<char>>) -> Seq<int>
    decreases transceiver_mids.len(),
{
    if transceiver_mids.len() == 0 {
        Seq::empty()
    } else {
        let before = to_stop(transceiver_mids.drop_last(), mids);
        match transceiver_mids.last() {
            Some(mid) => if mids.contains(mid@) {
                before.push(transceiver_mids.len() - 1)
            } else {
                before
            },
            None => before,
        }
    }
}

impl Sfu {
    /// Media of a track has arrived from its publisher: from now on it can be
    /// pulled. A track of the same name is replaced.
    pub fn register_track(&mut self, name: String, session_id: String, media_ssrc: u32)
        requires
            old(self)@.wf(),
        ensures
            final(self)@.wf(),
            final(self)@ == (SfuView {
                tracks: with_track(
                    old(self)@.tracks,
                    TrackView { name: name@, session_id: session_id@, media_ssrc },
                ),
                ..old(self)@
            }),
    {
        let ghost before = self@;
        let at = self.track_index(name.as_str());
        let track = PublishedTrack { name, session_id, media_ssrc };
        let ghost entered = track@;
        proof {
            track_at_finds(before.tracks, entered.name);
        }
        match at {
            Some(i) => {
                self.tracks.set(i, track);
            },
            None => {
                self.tracks.push(track);
            },
        }
        assert(self@.tracks == with_track(before.tracks, entered));
    }

    /// The publisher of a track is gone: it can no longer be pulled.
    pub fn unregister_track(&mut self, name: &str)
        requires
            old(self)@.wf(),
        ensures
            final(self)@.wf(),
            final(self)@ == (SfuView {
                tracks: without_track(old(self)@.tracks, name@),
                ..old(self)@
            }),
    {
        let ghost before = self@;
        if let Some(i) = self.track_index(name) {
            self.tracks.remove(i);
            assert(self@.tracks == before.tracks.remove(i as int));
        }
    }

    /// The session that publishes a live track, and the number that marks its
    /// media there: what a keyframe request needs.
    pub fn find_track(&self, name: &str) -> (r: Option<(String, u32)>)
        ensures
            match track_at(self@.tracks, name@) {
                Some(i) => r matches Some((session_id, ssrc)) && session_id@
                    == self@.tracks[i].session_id && ssrc == self@.tracks[i].media_ssrc,
                None => r is None,
            },
    {
        match self.track_index(name) {
            Some(i) => {
                assert(self@.tracks[i as int] == self.tracks@[i as int]@);
                Some((self.tracks[i].session_id.clone(), self.tracks[i].media_ssrc))
            },
            None => None,
        }
    }

    /// Where a pull that has to wait for a track stands: a pull can race the
    /// publisher's first packet, so it waits briefly instead of failing.
    pub fn wait_for_track(&self, name: &str, now: u64, deadline: u64) -> (r: TrackWait)
        ensures
            match r {
                TrackWait::Ready => track_at(self@.tracks, name@) is Some,
                TrackWait::GaveUp(e) => {
                    &&& track_at(self@.tracks, name@) is None
                    &&& now >= deadline
                    &&& e@ == SfuErrorView::TrackNotAvailable(name@)
                },
                TrackWait::Retry => track_at(self@.tracks, name@) is None && now < deadline,
            },
    {
        if self.track_index(name).is_some() {
            TrackWait::Ready
        } else if now >= deadline {
            TrackWait::GaveUp(SfuError::TrackNotAvailable(text::owned(name)))
        } else {
            TrackWait::Retry
        }
    }

    /// Strikes out every session whose connection is over or never came up, and
    /// names them: their connections have to be closed.
    pub fn sweep_stale_sessions(&mut self, states: &Vec<(String, PeerState)>, now: u64) -> (r: Vec<
        String,
    >)
        requires
            old(self)@.wf(),
        ensures
            final(self)@.wf(),
            final(self)@ == (SfuView {
                sessions: old(self)@.sessions.filter(fresh_at(states@, now)),
                ..old(self)@
            }),
            text::texts(r@) == ids_of(old(self)@.sessions.filter(stale_at(states@, now))),
    {
        let ghost before = self@;
        let ghost sessions = self@.sessions;
        let ghost fresh = fresh_at(states@, now);
        let ghost stale = stale_at(states@, now);
        let ghost mut done: int = 0;
        let mut r: Vec<String> = Vec::new();
        let mut i: usize = 0;
        assert(sessions.take(0).filter(fresh) + sessions.skip(0) == sessions) by {
            reveal(Seq::filter);
            assert(sessions.take(0) == Seq::<SessionView>::empty());
        }
        assert(sessions.take(0).filter(stale) == Seq::<SessionView>::empty()) by {
            reveal(Seq::filter);
        }
        while i < self.sessions.len()
            invariant
                0 <= done <= sessions.len(),
                fresh == fresh_at(states@, now),
                stale == stale_at(states@, now),
                self@.wf(),
                self@.tracks == before.tracks,
                i == sessions.take(done).filter(fresh).len(),
                self@.sessions == sessions.take(done).filter(fresh) + sessions.skip(done),
                text::texts(r@) == ids_of(sessions.take(done).filter(stale)),
            decreases sessions.len() - done,
        {
            let ghost kept = sessions.take(done).filter(fresh);
            let ghost then = self@;
            proof {
                assert(self@.sessions.len() == self.sessions@.len());
                assert(sessions.take(done + 1) == sessions.take(done).push(sessions[done]));
                sessions.take(done).lemma_filter_push(sessions[done], fresh);
                sessions.take(done).lemma_filter_push(sessions[done], stale);
                assert(self@.sessions[i as int] == sessions[done]);
                assert(self.sessions@[i as int]@ == self@.sessions[i as int]);
            }
            if session_is_stale(&self.sessions[i], states, now) {
                proof {
                    close_keeps_wf(then, i as int);
                }
                let gone = self.sessions.remove(i);
                let ghost names = r@;
                r.push(gone.id);
                proof {
                    assert(self@.sessions == then.sessions.remove(i as int));
                    assert(self@ == (SfuView {
                        sessions: then.sessions.remove(i as int),
                        ..then
                    }));
                    assert(self@.sessions == kept + sessions.skip(done + 1));
                    assert(text::texts(r@) == text::texts(names).push(sessions[done].id));
                    let had = sessions.take(done).filter(stale);
                    assert(ids_of(had.push(sessions[done])) == ids_of(had).push(
                        sessions[done].id,
                    ));
                    done = done + 1;
                }
            } else {
                i += 1;
                proof {
                    assert(self@.sessions == kept.push(sessions[done]) + sessions.skip(done + 1));
                    done = done + 1;
                }
            }
        }
        assert(sessions.skip(done).len() == 0);
        assert(sessions.take(done) == sessions);
        assert(self@.sessions == sessions.filter(fresh));
        r
    }
}

/// How a pull that waits for a track goes on.
pub enum TrackWait {
    /// The track is live.
    Ready,
    /// It did not go live in time.
    GaveUp(SfuError),
    /// Look again in a moment.
    Retry,
}

/// How a pull that waits goes on, as plain values.
pub enum TrackWaitView {
    Ready,
    GaveUp(SfuErrorView),
    Retry,
}

impl View for TrackWait {
    type V = TrackWaitView;

    open spec fn view(&self) -> TrackWaitView {
        match *self {
            TrackWait::Ready => TrackWaitView::Ready,
            TrackWait::GaveUp(e) => TrackWaitView::GaveUp(e@),
            TrackWait::Retry => TrackWaitView::Retry,
        }
    }
}

/// The state of a peer connection.
#[derive(Clone, Copy, PartialEq, Eq, Structural)]
pub enum PeerState {
    Unspecified,
    New,
    Connecting,
    Connected,
    Disconnected,
    Failed,
    Closed,
}

impl PeerState {
    /// The connection is over for good.
    pub open spec fn terminal(self) -> bool {
        self == PeerState::Failed || self == PeerState::Closed
    }

    /// The connection has not come up yet.
    pub open spec fn pending(self) -> bool {
        self == PeerState::New || self == PeerState::Connecting
    }

    /// Whether the connection is over for good, and its session has to be closed.
    pub fn is_terminal(&self) -> (r: bool)
        ensures
            r == self.terminal(),
            r <==> self is Failed || self is Closed,
    {
        match self {
            PeerState::Failed => true,
            PeerState::Closed => true,
            _ => false,
        }
    }

    /// Whether a session in this state has to be swept, given when it was opened.
    pub fn is_stale(&self, created_at: u64, now: u64) -> (r: bool)
        ensures
            r == (self.terminal() || self.pending() && created_at + STALE_SESSION_SECS < now),
            r <==> {
                ||| self is Failed || self is Closed
                ||| (self is New || self is Connecting) && now - created_at > 120
            },
    {
        let pending = match self {
            PeerState::New => true,
            PeerState::Connecting => true,
            _ => false,
        };
        self.is_terminal() || (pending && created_at < now && now - created_at
            > STALE_SESSION_SECS)
    }
}

/// The listed state of this session's connection.
pub open spec fn listed_as(id: Seq<char>) -> spec_fn((String, PeerState)) -> bool {
    |s: (String, PeerState)| s.0@ == id
}

/// The state of the connection of a session, the first that is listed for it.
pub open spec fn state_of(states: Seq<(String, PeerState)>, id: Seq<char>) -> Option<PeerState> {
    match search::first_at(states, listed_as(id)) {
        Some(i) => Some(states[i].1),
        None => None,
    }
}

/// A session that has to be swept: its connection is over, or it has not come up
/// in time.
pub open spec fn stale_at(states: Seq<(String, PeerState)>, now: u64) -> spec_fn(
    SessionView,
) -> bool {
    |s: SessionView|
        match state_of(states, s.id) {
            Some(state) => state.terminal() || state.pending() && s.created_at
                + STALE_SESSION_SECS < now,
            None => false,
        }
}

/// A session that need not be swept.
pub open spec fn fresh_at(states: Seq<(String, PeerState)>, now: u64) -> spec_fn(
    SessionView,
) -> bool {
    |s: SessionView| !stale_at(states, now)(s)
}

/// The ids of some sessions.
pub open spec fn ids_of(sessions: Seq<SessionView>) -> Seq<Seq<char>> {
    sessions.map_values(|s: SessionView| s.id)
}

proof fn state_of_stays(states: Seq<(String, PeerState)>, id: Seq<char>, n: int)
    requires
        0 <= n <= states.len(),
        state_of(states.take(n), id) is Some,
    ensures
        state_of(states, id) == state_of(states.take(n), id),
{
    let p = listed_as(id);
    search::first_at_finds(states.take(n), p);
    search::first_at_stays(states, p, n);
}

fn session_is_stale(session: &Session, states: &Vec<(String, PeerState)>, now: u64) -> (r: bool)
    ensures
        r == stale_at(states@, now)(session@),
{
    let ghost id = session.id@;
    let mut i: usize = 0;
    assert(states@.take(0) == Seq::<(String, PeerState)>::empty());
    while i < states.len()
        invariant
            i <= states@.len(),
            id == session.id@,
            state_of(states@.take(i as int), id) is None,
        decreases states.len() - i,
    {
        assert(states@.take(i + 1).drop_last() == states@.take(i as int));
        if text::same_text(states[i].0.as_str(), session.id.as_str()) {
            proof {
                state_of_stays(states@, id, i + 1);
            }
            return states[i].1.is_stale(session.created_at, now);
        }
        i += 1;
    }
    assert(states@.take(i as int) == states@);
    false
}

/// The public IP that browsers are told: the configured one, or else what a lookup
/// responded with, without the white space around it. `None` where there is neither.
pub open spec fn public_ip(configured: Option<Seq<char>>, response: Option<Seq<char>>) -> Option<
    Seq<char>,
> {
    match (configured, response) {
        (Some(ip), _) => Some(ip),
        (None, Some(body)) => Some(text::trimmed(body)),
        (None, None) => None,
    }
}

/// The public IP that browsers are told, given what a lookup responded with, if one
/// was made: `None` where one has to be made first.
pub fn advertised_ip(cfg: &BuiltinRtcConfig, response: Option<&str>) -> (r: Option<String>)
    ensures
        text::opt_text(r) == public_ip(
            text::opt_text(cfg.public_ip),
            match response {
                Some(body) => Some(body@),
                None => None,
            },
        ),
        match (cfg.public_ip, response) {
            (Some(ip), _) => r matches Some(told) && told@ == ip@,
            (None, Some(body)) => r matches Some(told) && told@ == text::trimmed(body@),
            (None, None) => r is None,
        },
{
    match &cfg.public_ip {
        Some(ip) => Some(ip.clone()),
        None => match response {
            Some(body) => Some(text::trim(body)),
            None => None,
        },
    }
}

/// What the browser receives as the answer to a publisher's offer. The answer
/// echoes the offer's Opus parameters, which lack stereo, and Chrome encodes
/// stereo only when the answer asks for it.
pub open spec fn stereo(sdp: Seq<char>) -> Seq<char> {
    if text::contains_text(sdp, "stereo=1"@) {
        sdp
    } else {
        text::replaced_all(sdp, "useinbandfec=1"@, "useinbandfec=1;stereo=1;sprop-stereo=1"@)
    }
}

/// The answer that the browser receives: it asks for stereo where it speaks of
/// Opus at all.
pub fn stereo_answer(sdp: String) -> (r: String)
    ensures
        r@ == stereo(sdp@),
{
    if text::contains(sdp.as_str(), "stereo=1") {
        sdp
    } else {
        proof {
            reveal_strlit("useinbandfec=1");
        }
        text::replace_all(
            sdp.as_str(),
            "useinbandfec=1",
            "useinbandfec=1;stereo=1;sprop-stereo=1",
        )
    }
}

/// Whether a viewer that pulls this track needs a keyframe at once. Video tracks
/// do; for audio there is none.
pub fn needs_keyframe(track_name: &str) -> (r: bool)
    ensures
        r == text::ends(track_name@, ":v"@),
{
    text::ends_with(track_name, ":v")
}

/// The id of the media stream that a track belongs to: one per share, so that a
/// viewer pulling video and audio groups them.
pub fn stream_id(track_name: &str) -> (r: String)
    ensures
        r@ == "janja-"@ + text::before_first(track_name@, ':'),
{
    let share_id = text::head(track_name, ':');
    text::joined("janja-", share_id.as_str())
}

/// The part of an RTP header that holds its extensions.
pub struct HeaderExtensions {
    pub extension: bool,
    pub extension_profile: u16,
    /// The extensions, each with its number and its payload.
    pub extensions: Vec<(u8, Vec<u8>)>,
}

impl HeaderExtensions {
    /// Takes the extensions out. Their numbers are negotiated per connection, so
    /// the publisher's are meaningless to viewers.
    pub fn strip(&mut self)
        ensures
            !final(self).extension,
            final(self).extension_profile == 0,
            final(self).extensions@.len() == 0,
    {
        self.extension = false;
        self.extension_profile = 0;
        self.extensions.clear();
    }
}

/// What a viewer reports about the media it receives.
#[derive(Clone, Copy, PartialEq, Eq, Structural)]
pub enum ViewerReport {
    PictureLoss,
    FullIntraRequest,
    Other,
}

impl ViewerReport {
    /// Whether the publisher has to be asked for a keyframe.
    pub fn wants_keyframe(&self) -> (r: bool)
        ensures
            r == (*self == ViewerReport::PictureLoss || *self == ViewerReport::FullIntraRequest),
    {
        match self {
            ViewerReport::PictureLoss => true,
            ViewerReport::FullIntraRequest => true,
            ViewerReport::Other => false,
        }
    }
}

/// A video codec that connections of the relay may negotiate.
pub struct VideoCodec {
    pub mime_type: &'static str,
    pub clock_rate: u32,
    pub channels: u16,
    pub sdp_fmtp_line: &'static str,
    /// The kinds of feedback, each with its parameter.
    pub rtcp_feedback: Vec<(&'static str, &'static str)>,
    pub payload_type: u8,
}

/// AV1, whose screen-content tools roughly halve the bitrate of a screen share.
/// Forwarding is blind to the codec, so it only has to be negotiated.
pub fn av1_codec() -> (r: VideoCodec)
    ensures
        r.mime_type@ == "video/AV1"@,
        r.clock_rate == 90000,
        r.channels == 0,
        r.sdp_fmtp_line@ == ""@,
        r.rtcp_feedback@ == seq![("goog-remb", ""), ("ccm", "fir"), ("nack", ""), ("nack", "pli")],
        r.payload_type == 45,
{
    VideoCodec {
        mime_type: "video/AV1",
        clock_rate: 90000,
        channels: 0,
        sdp_fmtp_line: "",
        rtcp_feedback: vec![("goog-remb", ""), ("ccm", "fir"), ("nack", ""), ("nack", "pli")],
        payload_type: 45,
    }
}

proof fn session_at_by_ids(a: Seq<SessionView>, b: Seq<SessionView>, id: Seq<char>)
    requires
        ids_of(a) == ids_of(b),
    ensures
        session_at(a, id) == session_at(b, id),
{
    assert(a.len() == ids_of(a).len() && b.len() == ids_of(b).len());
    let p = |s: SessionView| s.id == id;
    assert forall|i: int| 0 <= i < a.len() implies p(#[trigger] a[i]) == p(b[i]) by {
        assert(ids_of(a)[i] == ids_of(b)[i]);
    }
    search::first_at_alike(a, p, b, p);
}

/// A session that is entered or changed is found under its id, and every other
/// session is found as it was.
pub proof fn with_touches_one_session(s: SfuView, session: SessionView, id: Seq<char>)
    ensures
        s.with(session).session(id) == (if id == session.id {
            Some(session)
        } else {
            s.session(id)
        }),
        s.with(session).tracks == s.tracks,
{
    let after = s.with(session);
    session_at_finds(s.sessions, session.id);
    session_at_finds(s.sessions, id);
    match session_at(s.sessions, session.id) {
        Some(i) => {
            assert(ids_of(after.sessions) == ids_of(s.sessions)) by {
                assert(ids_of(after.sessions).len() == ids_of(s.sessions).len());
                assert forall|k: int| 0 <= k < s.sessions.len() implies ids_of(after.sessions)[k]
                    == ids_of(s.sessions)[k] by {
                    assert(s.sessions[i].id == session.id);
                }
            }
            session_at_by_ids(after.sessions, s.sessions, id);
        },
        None => {
            assert(s.sessions.push(session).drop_last() == s.sessions);
        },
    }
}

/// A session that has been closed is gone: whatever is asked of it next is
/// answered that it is unknown. Every other session is found as it was.
pub proof fn closed_session_is_unknown(
    s: SfuView,
    id: Seq<char>,
    other: Seq<char>,
    offer_sdp: Seq<char>,
    tracks: Seq<(Seq<char>, Seq<char>)>,
    names: Seq<Seq<char>>,
)
    requires
        s.wf(),
    ensures
        ({
            let after = SfuView { sessions: without_session(s.sessions, id), ..s };
            &&& after.session(id) is None
            &&& other != id ==> after.session(other) == s.session(other)
            &&& after.publish_refusal(id, offer_sdp, tracks) == Some(
                SfuErrorView::UnknownSession(id),
            )
            &&& after.subscribe_refusal(id, names) == Some(SfuErrorView::UnknownSession(id))
        }),
{
    let after = SfuView { sessions: without_session(s.sessions, id), ..s };
    session_at_finds(s.sessions, id);
    session_at_finds(after.sessions, id);
    session_at_finds(s.sessions, other);
    session_at_finds(after.sessions, other);
    if let Some(i) = session_at(s.sessions, id) {
        if let Some(j) = session_at(after.sessions, id) {
            let k = if j < i {
                j
            } else {
                j + 1
            };
            assert(s.sessions[k] == after.sessions[j]);
        }
        if other != id {
            if let Some(j) = session_at(after.sessions, other) {
                let k = if j < i {
                    j
                } else {
                    j + 1
                };
                assert(s.sessions[k] == after.sessions[j]);
            }
            if let Some(k) = session_at(s.sessions, other) {
                let j = if k < i {
                    k
                } else {
                    k - 1
                };
                assert(after.sessions[j] == s.sessions[k]);
            }
        }
    }
}

/// `first_in` finds a name of the set exactly where there is one.
pub proof fn first_in_finds(names: Seq<Seq<char>>, set: Set<Seq<char>>)
    ensures
        match first_in(names, set) {
            Some(name) => names.contains(name) && set.contains(name),
            None => forall|name: Seq<char>| names.contains(name) ==> !#[trigger] set.contains(name),
        },
{
    let p = |name: Seq<char>| set.contains(name);
    search::first_at_finds(names, p);
    assert forall|name: Seq<char>| names.contains(name) && first_in(
        names,
        set,
    ) is None implies !#[trigger] set.contains(name) by {
        assert(!p(names[names.index_of(name)]));
    }
}

/// The session after it has pulled these tracks.
pub open spec fn after_pull(session: SessionView, names: Seq<Seq<char>>) -> SessionView {
    SessionView { subscribed: session.subscribed.union(names.to_set()), ..session }
}

/// The session after it has let go of these tracks.
pub open spec fn after_release(session: SessionView, names: Seq<Seq<char>>) -> SessionView {
    SessionView { subscribed: session.subscribed.difference(names.to_set()), ..session }
}

/// A duplicate pull is rejected: once a session has pulled some tracks, a pull
/// that names any of them is turned down.
pub proof fn duplicate_pull_is_rejected(
    s: SfuView,
    session: SessionView,
    pulled: Seq<Seq<char>>,
    names: Seq<Seq<char>>,
    name: Seq<char>,
)
    requires
        s.session(session.id) == Some(session),
        pulled.contains(name),
        names.contains(name),
    ensures
        s.with(after_pull(session, pulled)).subscribe_refusal(session.id, names) matches Some(e)
            && e is AlreadyPulled,
{
    let after = s.with(after_pull(session, pulled));
    with_touches_one_session(s, after_pull(session, pulled), session.id);
    let set = after_pull(session, pulled).subscribed;
    first_in_finds(names, set);
    assert(set.contains(name));
    assert(after.session(session.id) == Some(after_pull(session, pulled)));
}

/// A track that a session has let go of may be pulled again, and so may any track
/// that it has never pulled.
pub proof fn released_track_may_be_pulled_again(
    s: SfuView,
    session: SessionView,
    released: Seq<Seq<char>>,
    names: Seq<Seq<char>>,
)
    requires
        s.session(session.id) == Some(session),
        forall|name: Seq<char>| names.contains(name) ==> released.contains(name)
            || !session.subscribed.contains(name),
    ensures
        s.with(after_release(session, released)).subscribe_refusal(session.id, names) is None,
{
    with_touches_one_session(s, after_release(session, released), session.id);
    first_in_finds(names, after_release(session, released).subscribed);
}

/// Letting go of exactly what was pulled undoes the pull.
pub proof fn release_undoes_pull(session: SessionView, names: Seq<Seq<char>>)
    requires
        forall|name: Seq<char>| #[trigger] names.contains(name) ==> !session.subscribed.contains(
            name,
        ),
    ensures
        after_release(after_pull(session, names), names) == session,
{
    assert forall|name: Seq<char>|
        session.subscribed.union(names.to_set()).difference(names.to_set()).contains(name)
            <==> session.subscribed.contains(name) by {
        assert(names.to_set().contains(name) <==> names.contains(name));
    }
    assert(session.subscribed.union(names.to_set()).difference(names.to_set())
        == session.subscribed);
}

/// The name for a media section.
pub open spec fn name_for(pairs: Seq<(Seq<char>, Seq<char>)>, mid: Seq<char>) -> Option<Seq<char>> {
    match pair_at(pairs, mid) {
        Some(i) => Some(pairs[i].1),
        None => None,
    }
}

proof fn pair_at_by_mids(
    a: Seq<(Seq<char>, Seq<char>)>,
    b: Seq<(Seq<char>, Seq<char>)>,
    mid: Seq<char>,
)
    requires
        a.len() == b.len(),
        forall|i: int| 0 <= i < a.len() ==> (#[trigger] a[i]).0 == b[i].0,
    ensures
        pair_at(a, mid) == pair_at(b, mid),
{
    let p = for_mid(mid);
    search::first_at_alike(a, p, b, p);
}

proof fn with_pair_names(
    pairs: Seq<(Seq<char>, Seq<char>)>,
    pair: (Seq<char>, Seq<char>),
    mid: Seq<char>,
)
    ensures
        name_for(with_pair(pairs, pair), mid) == (if mid == pair.0 {
            Some(pair.1)
        } else {
            name_for(pairs, mid)
        }),
{
    let after = with_pair(pairs, pair);
    pair_at_finds(pairs, pair.0);
    pair_at_finds(pairs, mid);
    match pair_at(pairs, pair.0) {
        Some(i) => {
            pair_at_by_mids(after, pairs, mid);
        },
        None => {
            assert(pairs.push(pair).drop_last() == pairs);
        },
    }
}

proof fn with_pairs_names(
    pairs: Seq<(Seq<char>, Seq<char>)>,
    added: Seq<(Seq<char>, Seq<char>)>,
    mid: Seq<char>,
)
    ensures
        (forall|i: int| 0 <= i < added.len() ==> (#[trigger] added[i]).0 != mid) ==> name_for(
            with_pairs(pairs, added),
            mid,
        ) == name_for(pairs, mid),
        forall|i: int|
            0 <= i < added.len() && (#[trigger] added[i]).0 == mid && (forall|j: int|
                i < j < added.len() ==> (#[trigger] added[j]).0 != mid) ==> name_for(
                with_pairs(pairs, added),
                mid,
            ) == Some(added[i].1),
    decreases added.len(),
{
    if added.len() > 0 {
        let rest = added.drop_last();
        with_pairs_names(pairs, rest, mid);
        with_pair_names(with_pairs(pairs, rest), added.last(), mid);
        let last = added.len() - 1;
        assert(added[last] == added.last());
        assert forall|i: int| 0 <= i < last implies #[trigger] rest[i] == added[i] by {}
        if added.last().0 != mid {
            if forall|i: int| 0 <= i < added.len() ==> (#[trigger] added[i]).0 != mid {
                assert forall|i: int| 0 <= i < rest.len() implies (#[trigger] rest[i]).0
                    != mid by {
                    assert(added[i].0 != mid);
                }
            }
            assert forall|i: int|
                0 <= i < added.len() && (#[trigger] added[i]).0 == mid && (forall|j: int|
                    i < j < added.len() ==> (#[trigger] added[j]).0 != mid) implies name_for(
                with_pairs(pairs, added),
                mid,
            ) == Some(added[i].1) by {
                assert(rest[i].0 == mid);
                assert forall|j: int| i < j < rest.len() implies (#[trigger] rest[j]).0 != mid by {
                    assert(added[j].0 != mid);
                }
            }
        }
    }
}

/// Media that arrives on a published section is known by the name that was
/// published last for that section; sections that the publication does not
/// mention keep their names.
pub proof fn published_media_is_named(
    s: SfuView,
    session: SessionView,
    tracks: Seq<(Seq<char>, Seq<char>)>,
    mid: Seq<char>,
)
    requires
        s.session(session.id) == Some(session),
    ensures
        ({
            let after = s.with(
                SessionView { published: with_pairs(session.published, tracks), ..session },
            );
            &&& (forall|i: int| 0 <= i < tracks.len() ==> (#[trigger] tracks[i]).0 != mid)
                ==> after.track_for(session.id, mid) == s.track_for(session.id, mid)
            &&& forall|i: int|
                0 <= i < tracks.len() && (#[trigger] tracks[i]).0 == mid && (forall|j: int|
                    i < j < tracks.len() ==> (#[trigger] tracks[j]).0 != mid)
                    ==> after.track_for(session.id, mid) == Some(tracks[i].1)
        }),
{
    let changed = SessionView { published: with_pairs(session.published, tracks), ..session };
    with_touches_one_session(s, changed, session.id);
    with_pairs_names(session.published, tracks, mid);
}

/// A publication is turned down exactly where some section is not in the offer.
pub proof fn first_unoffered_finds(offer_sdp: Seq<char>, tracks: Seq<(Seq<char>, Seq<char>)>)
    ensures
        first_unoffered(offer_sdp, tracks) is None <==> forall|i: int|
            0 <= i < tracks.len() ==> offered(offer_sdp, (#[trigger] tracks[i]).0),
        first_unoffered(offer_sdp, tracks) matches Some(mid) ==> !offered(offer_sdp, mid),
{
    let p = unoffered(offer_sdp);
    search::first_at_finds(tracks, p);
    if first_unoffered(offer_sdp, tracks) is None {
        assert forall|i: int| 0 <= i < tracks.len() implies offered(
            offer_sdp,
            (#[trigger] tracks[i]).0,
        ) by {
            assert(!p(tracks[i]));
        }
    }
}

proof fn contains_in_tail(a: Seq<char>, b: Seq<char>, pat: Seq<char>)
    requires
        text::contains_text(b, pat),
    ensures
        text::contains_text(a + b, pat),
{
    let i = choose|i: int| text::occurs_at(b, pat, i);
    assert((a + b).subrange(a.len() + i, a.len() + i + pat.len()) == b.subrange(
        i,
        i + pat.len(),
    ));
    assert(text::occurs_at(a + b, pat, a.len() + i));
}

proof fn contains_in_head(a: Seq<char>, b: Seq<char>, pat: Seq<char>)
    requires
        text::contains_text(a, pat),
    ensures
        text::contains_text(a + b, pat),
{
    let i = choose|i: int| text::occurs_at(a, pat, i);
    assert((a + b).subrange(i, i + pat.len()) == a.subrange(i, i + pat.len()));
    assert(text::occurs_at(a + b, pat, i));
}

proof fn replaced_all_holds_replacement(
    s: Seq<char>,
    pat: Seq<char>,
    with: Seq<char>,
    inner: Seq<char>,
)
    requires
        pat.len() > 0,
        text::contains_text(s, pat),
        text::contains_text(with, inner),
    ensures
        text::contains_text(text::replaced_all(s, pat, with), inner),
    decreases s.len(),
{
    let i = choose|i: int| text::occurs_at(s, pat, i);
    if text::begins(s, pat) {
        contains_in_head(with, text::replaced_all(s.skip(pat.len() as int), pat, with), inner);
    } else {
        let rest = s.skip(1);
        assert(rest.subrange(i - 1, i - 1 + pat.len()) == s.subrange(i, i + pat.len()));
        assert(text::occurs_at(rest, pat, i - 1));
        replaced_all_holds_replacement(rest, pat, with, inner);
        contains_in_tail(seq![s[0]], text::replaced_all(rest, pat, with), inner);
    }
}

proof fn replaced_all_without(s: Seq<char>, pat: Seq<char>, with: Seq<char>)
    requires
        !text::contains_text(s, pat),
    ensures
        text::replaced_all(s, pat, with) == s,
    decreases s.len(),
{
    if s.len() > 0 && pat.len() > 0 {
        let rest = s.skip(1);
        if text::contains_text(rest, pat) {
            let i = choose|i: int| text::occurs_at(rest, pat, i);
            assert(s.subrange(i + 1, i + 1 + pat.len()) == rest.subrange(i, i + pat.len()));
            assert(text::occurs_at(s, pat, i + 1));
        }
        replaced_all_without(rest, pat, with);
        assert(!text::occurs_at(s, pat, 0));
        assert(seq![s[0]] + rest == s);
    }
}

/// The answer that a browser receives asks for stereo wherever the relay's own
/// answer did, or spoke of Opus with in-band error correction; an answer that
/// does neither is passed on as it is.
pub proof fn opus_answer_asks_for_stereo(sdp: Seq<char>)
    ensures
        text::contains_text(sdp, "stereo=1"@) || text::contains_text(sdp, "useinbandfec=1"@)
            ==> text::contains_text(stereo(sdp), "stereo=1"@),
        !text::contains_text(sdp, "useinbandfec=1"@) ==> stereo(sdp) == sdp,
{
    let pat = "useinbandfec=1"@;
    let with = "useinbandfec=1;stereo=1;sprop-stereo=1"@;
    let inner = "stereo=1"@;
    reveal_strlit("useinbandfec=1");
    reveal_strlit("useinbandfec=1;stereo=1;sprop-stereo=1");
    reveal_strlit("stereo=1");
    assert(with.subrange(15, 23) == inner);
    assert(text::occurs_at(with, inner, 15));
    if !text::contains_text(sdp, inner) {
        if text::contains_text(sdp, pat) {
            replaced_all_holds_replacement(sdp, pat, with, inner);
        } else {
            replaced_all_without(sdp, pat, with);
        }
    }
}

/// An answer that has been made to ask for stereo is not changed again.
pub proof fn stereo_is_idempotent(sdp: Seq<char>)
    ensures
        stereo(stereo(sdp)) == stereo(sdp),
{
    opus_answer_asks_for_stereo(sdp);
    opus_answer_asks_for_stereo(stereo(sdp));
}

/// A session whose connection is up is never swept, however old it is.
pub proof fn connected_session_is_not_swept(
    states: Seq<(String, PeerState)>,
    now: u64,
    sessions: Seq<SessionView>,
    session: SessionView,
)
    requires
        sessions.contains(session),
        state_of(states, session.id) == Some(PeerState::Connected),
    ensures
        sessions.filter(fresh_at(states, now)).contains(session),
{
    let k = sessions.index_of(session);
    sessions.lemma_filter_contains(fresh_at(states, now), k);
}

/// After a sweep no session is left whose connection is over, nor one that has
/// been waiting to connect for longer than the limit.
pub proof fn sweep_leaves_no_stale_session(
    states: Seq<(String, PeerState)>,
    now: u64,
    sessions: Seq<SessionView>,
    session: SessionView,
    state: PeerState,
)
    requires
        sessions.filter(fresh_at(states, now)).contains(session),
        state_of(states, session.id) == Some(state),
    ensures
        !state.terminal(),
        state.pending() ==> session.created_at + STALE_SESSION_SECS >= now,
{
    let kept = sessions.filter(fresh_at(states, now));
    let k = kept.index_of(session);
    sessions.lemma_filter_pred(fresh_at(states, now), k);
}

/// The live track of a name.
pub open spec fn live_track(tracks: Seq<TrackView>, name: Seq<char>) -> Option<TrackView> {
    match track_at(tracks, name) {
        Some(i) => Some(tracks[i]),
        None => None,
    }
}

/// A track that has gone live is found under its name, one that has ended is not,
/// and every other name stands for the track that it stood for.
pub proof fn tracks_come_and_go(s: SfuView, track: TrackView, name: Seq<char>)
    requires
        s.wf(),
    ensures
        live_track(with_track(s.tracks, track), name) == (if name == track.name {
            Some(track)
        } else {
            live_track(s.tracks, name)
        }),
        live_track(without_track(s.tracks, track.name), name) == (if name == track.name {
            None
        } else {
            live_track(s.tracks, name)
        }),
{
    let live = with_track(s.tracks, track);
    let ended = without_track(s.tracks, track.name);
    track_at_finds(s.tracks, track.name);
    track_at_finds(s.tracks, name);
    track_at_finds(live, name);
    track_at_finds(ended, name);
    match track_at(s.tracks, track.name) {
        Some(i) => {
            assert(live[i] == track);
            if let Some(j) = track_at(live, name) {
                assert(j != i ==> live[j] == s.tracks[j]);
            }
            if let Some(j) = track_at(ended, name) {
                assert(ended[j] == s.tracks[if j < i {
                    j
                } else {
                    j + 1
                }]);
            }
            if let Some(k) = track_at(s.tracks, name) {
                if name != track.name {
                    assert(live[k] == s.tracks[k]);
                    assert(ended[if k < i {
                        k
                    } else {
                        k - 1
                    }] == s.tracks[k]);
                }
            }
        },
        None => {
            assert(live[s.tracks.len() as int] == track);
            if let Some(j) = track_at(live, name) {
                assert(j < s.tracks.len() ==> live[j] == s.tracks[j]);
            }
            if let Some(k) = track_at(s.tracks, name) {
                assert(live[k] == s.tracks[k]);
            }
        },
    }
}

/// An answer that does not ask for stereo gains the request directly behind the first
/// "useinbandfec=1" and then in the same way behind each that follows. What stands before it,
/// the parameter itself and everything else stay as they are.
pub proof fn stereo_is_asked_behind_each_opus_parameter(head: Seq<char>, tail: Seq<char>)
    requires
        !text::contains_text(head + "useinbandfec=1"@ + tail, "stereo=1"@),
        forall|j: int|
            0 <= j < head.len() ==> !#[trigger] text::occurs_at(
                head + "useinbandfec=1"@ + tail,
                "useinbandfec=1"@,
                j,
            ),
    ensures
        stereo(head + "useinbandfec=1"@ + tail) == head + "useinbandfec=1"@
            + ";stereo=1;sprop-stereo=1"@ + stereo(tail),
{
    let fec = "useinbandfec=1"@;
    let sdp = head + fec + tail;
    let with = "useinbandfec=1;stereo=1;sprop-stereo=1"@;
    stereo_request_is_spelled_out();
    text::replaced_all_goes_on_behind(head, fec, tail, with);
    if text::contains_text(tail, "stereo=1"@) {
        contains_in_tail(head + fec, tail, "stereo=1"@);
    }
    assert(head + with + stereo(tail) == head + fec + ";stereo=1;sprop-stereo=1"@ + stereo(tail));
}

/// Asking for stereo only adds text: taken out again wherever it stands behind
/// "useinbandfec=1", the request leaves the answer as it was. One that asks for stereo already
/// stays as it is.
pub proof fn stereo_request_can_be_taken_out(sdp: Seq<char>)
    ensures
        text::contains_text(sdp, "stereo=1"@) ==> stereo(sdp) == sdp,
        !text::contains_text(sdp, "stereo=1"@) ==> text::replaced_all(
            stereo(sdp),
            "useinbandfec=1"@ + ";stereo=1;sprop-stereo=1"@,
            "useinbandfec=1"@,
        ) == sdp,
        stereo(sdp).len() >= sdp.len(),
{
    let fec = "useinbandfec=1"@;
    stereo_request_is_spelled_out();
    text::insertions_can_be_taken_out(sdp, fec, ";stereo=1;sprop-stereo=1"@);
    replaced_all_grows(sdp, fec, fec + ";stereo=1;sprop-stereo=1"@);
}

proof fn replaced_all_grows(s: Seq<char>, pat: Seq<char>, with: Seq<char>)
    requires
        pat.len() <= with.len(),
    ensures
        text::replaced_all(s, pat, with).len() >= s.len(),
    decreases s.len(),
{
    if s.len() > 0 && pat.len() > 0 {
        if text::begins(s, pat) {
            replaced_all_grows(s.skip(pat.len() as int), pat, with);
        } else {
            replaced_all_grows(s.skip(1), pat, with);
        }
    }
}

proof fn stereo_request_is_spelled_out()
    ensures
        "useinbandfec=1"@.len() > 0,
        "useinbandfec=1;stereo=1;sprop-stereo=1"@ == "useinbandfec=1"@ + ";stereo=1;sprop-stereo=1"@,
        forall|k: int|
            0 < k < "useinbandfec=1"@.len() ==> #[trigger] "useinbandfec=1"@[k]
                != "useinbandfec=1"@[0],
{
    reveal_strlit("useinbandfec=1");
    reveal_strlit(";stereo=1;sprop-stereo=1");
    reveal_strlit("useinbandfec=1;stereo=1;sprop-stereo=1");
}

/// A media section is offered exactly where a line of the offer, but for white space around
/// it, is "a=mid:" and the section's mid.
pub proof fn sections_are_offered_by_their_line(offer_sdp: Seq<char>, mid: Seq<char>)
    ensures
        offered(offer_sdp, mid) <==> exists|a: int, b: int|
            {
                &&& 0 <= a <= b <= offer_sdp.len()
                &&& a == 0 || offer_sdp[a - 1] == '\n'
                &&& b == offer_sdp.len() || offer_sdp[b] == '\n'
                &&& !offer_sdp.subrange(a, b).contains('\n')
                &&& text::trimmed(#[trigger] offer_sdp.subrange(a, b)) == "a=mid:"@ + mid
            },
{
    text::lines_stand_between_line_feeds(offer_sdp, "a=mid:"@ + mid);
}

/// A publication is taken exactly where its session is known and the offer has every section
/// that it names. One of an unknown session is answered with that, and otherwise the first
/// section is named that the offer does not have.
pub proof fn publications_are_refused_for_a_reason(
    s: SfuView,
    session_id: Seq<char>,
    offer_sdp: Seq<char>,
    tracks: Seq<(Seq<char>, Seq<char>)>,
)
    ensures
        ({
            let known = exists|i: int|
                0 <= i < s.sessions.len() && (#[trigger] s.sessions[i]).id == session_id;
            let refusal = s.publish_refusal(session_id, offer_sdp, tracks);
            &&& !known <==> refusal == Some(SfuErrorView::UnknownSession(session_id))
            &&& known && (forall|i: int|
                0 <= i < tracks.len() ==> offered(offer_sdp, (#[trigger] tracks[i]).0))
                <==> refusal is None
            &&& refusal is Some && known ==> exists|i: int|
                {
                    &&& 0 <= i < tracks.len()
                    &&& refusal == Some(SfuErrorView::MidNotInOffer((#[trigger] tracks[i]).0))
                    &&& !offered(offer_sdp, tracks[i].0)
                    &&& forall|j: int|
                        0 <= j < i ==> offered(offer_sdp, (#[trigger] tracks[j]).0)
                }
        }),
{
    let p = unoffered(offer_sdp);
    session_at_finds(s.sessions, session_id);
    first_unoffered_finds(offer_sdp, tracks);
    search::first_at_finds(tracks, p);
    if let Some(i) = search::first_at(tracks, p) {
        assert(!offered(offer_sdp, tracks[i].0));
        assert forall|j: int| 0 <= j < i implies offered(offer_sdp, (#[trigger] tracks[j]).0) by {
            assert(!p(tracks[j]));
        }
    }
}

/// A pull is begun exactly where its session is known and has pulled none of the tracks. One
/// of an unknown session is answered with that, and otherwise the first track is named that
/// the session has pulled.
pub proof fn pulls_are_refused_for_a_reason(
    s: SfuView,
    session_id: Seq<char>,
    names: Seq<Seq<char>>,
)
    ensures
        ({
            let known = exists|i: int|
                0 <= i < s.sessions.len() && (#[trigger] s.sessions[i]).id == session_id;
            let refusal = s.subscribe_refusal(session_id, names);
            &&& !known <==> refusal == Some(SfuErrorView::UnknownSession(session_id))
            &&& s.session(session_id) matches Some(session) ==> {
                &&& session.id == session_id
                &&& s.sessions.contains(session)
                &&& refusal is None <==> forall|i: int|
                    0 <= i < names.len() ==> !session.subscribed.contains(#[trigger] names[i])
                &&& refusal is Some ==> exists|i: int|
                    {
                        &&& 0 <= i < names.len()
                        &&& refusal == Some(SfuErrorView::AlreadyPulled(#[trigger] names[i]))
                        &&& session.subscribed.contains(names[i])
                        &&& forall|j: int|
                            0 <= j < i ==> !session.subscribed.contains(#[trigger] names[j])
                    }
            }
            &&& s.session(session_id) is Some <==> known
        }),
{
    session_at_finds(s.sessions, session_id);
    if let Some(session) = s.session(session_id) {
        let p = |name: Seq<char>| session.subscribed.contains(name);
        search::first_at_finds(names, p);
        match search::first_at(names, p) {
            Some(i) => {
                assert(session.subscribed.contains(names[i]));
                assert forall|j: int| 0 <= j < i implies !session.subscribed.contains(
                    #[trigger] names[j],
                ) by {
                    assert(!p(names[j]));
                }
            },
            None => {
                assert forall|j: int| 0 <= j < names.len() implies !session.subscribed.contains(
                    #[trigger] names[j],
                ) by {
                    assert(!p(names[j]));
                }
            },
        }
    }
}

proof fn sessions_of_counts(sessions: Seq<SessionView>, owner: Seq<char>)
    ensures
        sessions_of(sessions, owner) == sessions.filter(|s: SessionView| s.owner == owner).len(),
    decreases sessions.len(),
{
    reveal(Seq::filter);
    if sessions.len() > 0 {
        sessions_of_counts(sessions.drop_last(), owner);
    }
}

/// A user may open another session as long as the relay holds fewer than 512 and fewer than
/// 16 of them are theirs. Otherwise the limit that is reached is named, the relay's first.
pub proof fn session_limits_are_counted(s: SfuView, owner: Seq<char>)
    ensures
        ({
            let owned = s.sessions.filter(|x: SessionView| x.owner == owner).len();
            &&& s.limit(owner) is None <==> s.sessions.len() < 512 && owned < 16
            &&& s.limit(owner) == Some(SfuErrorView::SessionLimit) <==> s.sessions.len() >= 512
            &&& s.limit(owner) == Some(SfuErrorView::UserSessionLimit) <==> s.sessions.len() < 512
                && owned >= 16
        }),
{
    sessions_of_counts(s.sessions, owner);
}

/// Added tracks are paired with the sections that they were given, each with its own and in
/// their order, and the first that was given none is the one that is named.
pub proof fn added_tracks_are_paired_in_order(added: Seq<(Option<Seq<char>>, Seq<char>)>)
    ensures
        paired(added).len() == added.len(),
        forall|i: int|
            0 <= i < added.len() && (#[trigger] added[i]).0 is Some ==> paired(added)[i] == (
                added[i].0->0,
                added[i].1,
            ),
        forall|i: int|
            0 <= i < added.len() ==> names_of(paired(added))[i] == (#[trigger] added[i]).1,
        first_without_mid(added) is None <==> forall|i: int|
            0 <= i < added.len() ==> (#[trigger] added[i]).0 is Some,
        first_without_mid(added) is Some ==> exists|i: int|
            {
                &&& 0 <= i < added.len()
                &&& (#[trigger] added[i]).0 is None
                &&& first_without_mid(added) == Some(added[i].1)
                &&& forall|j: int| 0 <= j < i ==> (#[trigger] added[j]).0 is Some
            },
{
    let p = |a: (Option<Seq<char>>, Seq<char>)| a.0 is None;
    search::first_at_finds(added, p);
    match search::first_at(added, p) {
        Some(i) => {
            assert(added[i].0 is None);
            assert forall|j: int| 0 <= j < i implies (#[trigger] added[j]).0 is Some by {
                assert(!p(added[j]));
            }
        },
        None => {
            assert forall|j: int| 0 <= j < added.len() implies (#[trigger] added[j]).0 is Some by {
                assert(!p(added[j]));
            }
        },
    }
}

/// The transceivers that stop are exactly those whose section is among the stopped ones, each
/// named once and in their order.
pub proof fn exactly_the_stopped_sections_stop(
    transceiver_mids: Seq<Option<String>>,
    mids: Seq<Seq<char>>,
)
    ensures
        forall|i: int| #[trigger]
            to_stop(transceiver_mids, mids).contains(i) <==> {
                &&& 0 <= i < transceiver_mids.len()
                &&& transceiver_mids[i] is Some
                &&& mids.contains(transceiver_mids[i]->0@)
            },
        forall|j: int, k: int|
            0 <= j < k < to_stop(transceiver_mids, mids).len() ==> #[trigger] to_stop(
                transceiver_mids,
                mids,
            )[j] < #[trigger] to_stop(transceiver_mids, mids)[k],
    decreases transceiver_mids.len(),
{
    let all = to_stop(transceiver_mids, mids);
    if transceiver_mids.len() > 0 {
        let rest = transceiver_mids.drop_last();
        let before = to_stop(rest, mids);
        let last: int = transceiver_mids.len() - 1;
        exactly_the_stopped_sections_stop(rest, mids);
        assert forall|i: int| 0 <= i < last implies rest[i] == transceiver_mids[i] by {}
        assert forall|k: int| 0 <= k < before.len() implies 0 <= #[trigger] before[k] < last by {
            assert(before.contains(before[k]));
        }
        assert(all == before || all == before.push(last));
        assert forall|i: int| #[trigger] all.contains(i) <==> {
            &&& 0 <= i < transceiver_mids.len()
            &&& transceiver_mids[i] is Some
            &&& mids.contains(transceiver_mids[i]->0@)
        } by {
            assert(before.contains(i) ==> 0 <= i < last);
            if all == before.push(last) {
                assert(all[before.len() as int] == last);
                if before.contains(i) {
                    let k: int = before.index_of(i);
                    assert(all[k] == i);
                }
                if all.contains(i) && i != last {
                    let k: int = all.index_of(i);
                    assert(before[k] == i);
                }
            }
        }
    }
}

/// A sweep takes exactly the sessions whose connection is over, or has been coming up for more
/// than two minutes, and names each of them. A session counts by the first state listed for
/// it; one for which none is listed stays.
pub proof fn sweep_takes_exactly_the_dead(
    states: Seq<(String, PeerState)>,
    now: u64,
    sessions: Seq<SessionView>,
    session: SessionView,
    at: Option<int>,
)
    requires
        sessions.contains(session),
        match at {
            Some(i) => 0 <= i < states.len() && states[i].0@ == session.id && forall|j: int|
                0 <= j < i ==> (#[trigger] states[j]).0@ != session.id,
            None => forall|j: int| 0 <= j < states.len() ==> (#[trigger] states[j]).0@ != session.id,
        },
    ensures
        ({
            let dead = match at {
                Some(i) => {
                    let state = states[i].1;
                    ||| state is Failed || state is Closed
                    ||| (state is New || state is Connecting) && now - session.created_at > 120
                },
                None => false,
            };
            &&& sessions.filter(fresh_at(states, now)).contains(session) <==> !dead
            &&& sessions.filter(stale_at(states, now)).contains(session) <==> dead
            &&& dead ==> ids_of(sessions.filter(stale_at(states, now))).contains(session.id)
        }),
{
    let fresh = fresh_at(states, now);
    let stale = stale_at(states, now);
    let p = listed_as(session.id);
    search::first_at_finds(states, p);
    match (search::first_at(states, p), at) {
        (Some(k), Some(i)) => {
            assert(p(states[i]));
            if k < i {
                assert(p(states[k]));
            }
        },
        (Some(k), None) => {
            assert(p(states[k]));
        },
        (None, Some(i)) => {
            assert(p(states[i]));
        },
        (None, None) => {},
    }
    let k: int = sessions.index_of(session);
    if fresh(session) {
        sessions.lemma_filter_contains(fresh, k);
    }
    if stale(session) {
        sessions.lemma_filter_contains(stale, k);
        let gone = sessions.filter(stale);
        let n: int = gone.index_of(session);
        assert(ids_of(gone)[n] == session.id);
    }
    if sessions.filter(fresh).contains(session) {
        sessions.lemma_filter_pred(fresh, sessions.filter(fresh).index_of(session));
    }
    if sessions.filter(stale).contains(session) {
        sessions.lemma_filter_pred(stale, sessions.filter(stale).index_of(session));
    }
}

/// The ids of some sessions are theirs, place by place.
pub proof fn ids_stand_place_by_place(sessions: Seq<SessionView>)
    ensures
        ids_of(sessions).len() == sessions.len(),
        forall|i: int| 0 <= i < sessions.len() ==> #[trigger] ids_of(sessions)[i] == sessions[i].id,
{
}

/// The words for a refusal name what was refused: the session, the section or the track, and
/// the reason where there is one.
pub proof fn refusals_name_what_was_refused(subject: Seq<char>, reason: Seq<char>)
    ensures
        text::ends(SfuErrorView::UnknownSession(subject).message(), subject),
        text::contains_text(SfuErrorView::MidNotInOffer(subject).message(), subject),
        text::contains_text(SfuErrorView::AlreadyPulled(subject).message(), subject),
        text::contains_text(SfuErrorView::TrackNotAvailable(subject).message(), subject),
        text::ends(SfuErrorView::NoMid(subject).message(), subject),
        text::ends(SfuErrorView::BadOffer(reason).message(), reason),
        text::ends(SfuErrorView::BadAnswer(reason).message(), reason),
        text::contains_text(SfuErrorView::AddTrack { name: subject, reason }.message(), subject),
        text::ends(SfuErrorView::AddTrack { name: subject, reason }.message(), reason),
{
    let unknown = SfuErrorView::UnknownSession(subject).message();
    assert(unknown.subrange(unknown.len() - subject.len(), unknown.len() as int) == subject);
    text::texts_are_found_in_what_they_make_up(
        SfuErrorView::MidNotInOffer(subject).message(),
        subject,
    );
    text::texts_are_found_in_what_they_make_up(
        SfuErrorView::AlreadyPulled(subject).message(),
        subject,
    );
    text::texts_are_found_in_what_they_make_up(
        SfuErrorView::TrackNotAvailable(subject).message(),
        subject,
    );
    let bare = SfuErrorView::NoMid(subject).message();
    assert(bare.subrange(bare.len() - subject.len(), bare.len() as int) == subject);
    let offer = SfuErrorView::BadOffer(reason).message();
    assert(offer.subrange(offer.len() - reason.len(), offer.len() as int) == reason);
    let answer = SfuErrorView::BadAnswer(reason).message();
    assert(answer.subrange(answer.len() - reason.len(), answer.len() as int) == reason);
    let track = SfuErrorView::AddTrack { name: subject, reason }.message();
    assert(track == "add track "@ + subject + (": "@ + reason));
    text::texts_are_found_in_what_they_make_up(track, subject);
    assert(track.subrange(track.len() - reason.len(), track.len() as int) == reason);
}

} // verus!
