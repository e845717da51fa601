//! What the Cloudflare Realtime SFU is asked, and what its answers mean.
//!
//! The browser never talks to Cloudflare's API directly: everything goes through
//! the server, so that the app secret stays there and it decides who may publish
//! or pull which tracks.

use vstd::prelude::*;

use crate::config::Config;
use crate::http;
use crate::http::{ApiError, Call, Credentials, Method, Request, Sent};
use crate::search;
use crate::text;

verus! {

pub const BASE: &'static str = "https://rtc.live.cloudflare.com/v1/apps";

/// How many tracks one forced close names at most.
pub const FORCE_CLOSE_CHUNK: usize = 64;

/// A track that the browser publishes.
pub struct LocalTrack<'a> {
    /// "local"
    pub location: &'static str,
    pub mid: &'a str,
    pub track_name: String,
}

/// A track that another session publishes.
pub struct RemoteTrack {
    /// "remote"
    pub location: &'static str,
    pub session_id: String,
    pub track_name: String,
}

pub struct SessionDescription {
    pub sdp: String,
}

pub struct TrackResult {
    pub mid: Option<String>,
    pub track_name: Option<String>,
    pub error_code: Option<String>,
    pub error_description: Option<String>,
}

pub struct TracksResponse {
    pub session_description: Option<SessionDescription>,
    pub tracks: Vec<TrackResult>,
    pub requires_immediate_renegotiation: bool,
    pub error_code: Option<String>,
    pub error_description: Option<String>,
}

/// The answer to a request for a new session.
pub struct NewSession {
    pub session_id: String,
    pub error_code: Option<String>,
}

/// One track in the body of a request.
pub enum TrackEntry {
    Local { location: &'static str, mid: String, track_name: String },
    Remote { location: &'static str, session_id: String, track_name: String },
    /// A track to be closed.
    Mid(String),
}

/// A track of a request as plain values.
pub enum TrackEntryView {
    Local { location: Seq<char>, mid: Seq<char>, track_name: Seq<char> },
    Remote { location: Seq<char>, session_id: Seq<char>, track_name: Seq<char> },
    Mid(Seq<char>),
}

impl View for TrackEntry {
    type V = TrackEntryView;

    open spec fn view(&self) -> TrackEntryView {
        match *self {
            TrackEntry::Local { location, mid, track_name } => TrackEntryView::Local {
                location: location@,
                mid: mid@,
                track_name: track_name@,
            },
            TrackEntry::Remote { location, session_id, track_name } => TrackEntryView::Remote {
                location: location@,
                session_id: session_id@,
                track_name: track_name@,
            },
            TrackEntry::Mid(mid) => TrackEntryView::Mid(mid@),
        }
    }
}

/// Who describes the session: the side that offers or the side that answers.
#[derive(Clone, Copy, PartialEq, Eq, Structural)]
pub enum SdpKind {
    Offer,
    Answer,
}

/// The JSON document of a request. What is absent here is absent there.
pub struct Document {
    pub session_description: Option<(SdpKind, String)>,
    pub tracks: Option<Vec<TrackEntry>>,
    pub force: Option<bool>,
}

/// A document as plain values.
#[verifier::ext_equal]
pub struct DocumentView {
    pub session_description: Option<(SdpKind, Seq<char>)>,
    pub tracks: Option<Seq<TrackEntryView>>,
    pub force: Option<bool>,
}

/// The tracks of a request as plain values.
pub open spec fn entry_views(entries: Seq<TrackEntry>) -> Seq<TrackEntryView> {
    entries.map_values(|e: TrackEntry| e@)
}

impl View for Document {
    type V = DocumentView;

    open spec fn view(&self) -> DocumentView {
        DocumentView {
            session_description: match self.session_description {
                Some((kind, sdp)) => Some((kind, sdp@)),
                None => None,
            },
            tracks: match self.tracks {
                Some(tracks) => Some(entry_views(tracks@)),
                None => None,
            },
            force: self.force,
        }
    }
}

/// A request whose body is a JSON document.
pub struct JsonRequest {
    pub request: Request,
    pub document: Document,
}

/// Published tracks as they stand in a request.
pub open spec fn local_entries(tracks: Seq<LocalTrack>) -> Seq<TrackEntryView> {
    tracks.map_values(
        |t: LocalTrack|
            TrackEntryView::Local {
                location: t.location@,
                mid: t.mid@,
                track_name: t.track_name@,
            },
    )
}

/// Pulled tracks as they stand in a request.
pub open spec fn remote_entries(tracks: Seq<RemoteTrack>) -> Seq<TrackEntryView> {
    tracks.map_values(
        |t: RemoteTrack|
            TrackEntryView::Remote {
                location: t.location@,
                session_id: t.session_id@,
                track_name: t.track_name@,
            },
    )
}

/// Closed tracks as they stand in a request.
pub open spec fn mid_entries(mids: Seq<Seq<char>>) -> Seq<TrackEntryView> {
    mids.map_values(|mid: Seq<char>| TrackEntryView::Mid(mid))
}

/// The address of the configured app.
pub open spec fn base(cfg: Config) -> Seq<char> {
    BASE@ + "/"@ + cfg.cloudflare->0.app_id@
}

/// The address of the configured app.
pub fn base_url(cfg: &Config) -> (r: String)
    requires
        cfg.cloudflare is Some,
    ensures
        r@ == base(*cfg),
{
    let mut r = text::joined(BASE, "/");
    r.append(cfg.cloudflare().app_id.as_str());
    r
}

/// A request to the configured app.
pub open spec fn asked(cfg: Config, method: Method, path: Seq<char>) -> http::RequestView {
    http::RequestView {
        method,
        url: base(cfg) + path,
        credentials: http::CredentialsView::Bearer(cfg.cloudflare->0.app_secret@),
    }
}

/// A request about one session of the configured app.
pub open spec fn asked_of(
    cfg: Config,
    method: Method,
    session_id: Seq<char>,
    path: Seq<char>,
) -> http::RequestView {
    asked(cfg, method, "/sessions/"@ + session_id + path)
}

fn ask(cfg: &Config, method: Method, path: &str) -> (r: Request)
    requires
        cfg.cloudflare is Some,
    ensures
        r@ == asked(*cfg, method, path@),
{
    let mut url = base_url(cfg);
    url.append(path);
    Request { method, url, credentials: Credentials::Bearer(cfg.cloudflare().app_secret.clone()) }
}

fn ask_of(cfg: &Config, method: Method, session_id: &str, path: &str) -> (r: Request)
    requires
        cfg.cloudflare is Some,
    ensures
        r@ == asked_of(*cfg, method, session_id@, path@),
{
    let mut full = text::joined("/sessions/", session_id);
    full.append(path);
    ask(cfg, method, full.as_str())
}

/// Asks for a new session.
pub fn new_session(cfg: &Config) -> (r: Request)
    requires
        cfg.cloudflare is Some,
    ensures
        r@ == asked(*cfg, Method::Post, "/sessions/new"@),
{
    ask(cfg, Method::Post, "/sessions/new")
}

/// The id of the session that was opened.
pub open spec fn opened(sent: Sent<NewSession>) -> Result<Seq<char>, http::ApiErrorView> {
    match http::outcome(Call::SessionsNew, sent) {
        Ok(answer) => match answer.error_code {
            Some(code) => Err(
                http::ApiErrorView::Reported {
                    call: Call::SessionsNew,
                    code: code@,
                    detail: None,
                },
            ),
            None => Ok(answer.session_id@),
        },
        Err(e) => Err(e),
    }
}

/// A result with its text and its error as plain values.
pub open spec fn plain_text(r: Result<String, ApiError>) -> Result<Seq<char>, http::ApiErrorView> {
    match r {
        Ok(s) => Ok(s@),
        Err(e) => Err(e@),
    }
}

/// The id of the session that was opened.
pub fn session_opened(sent: Sent<NewSession>) -> (r: Result<String, ApiError>)
    requires
        sent.wf(),
    ensures
        plain_text(r) == opened(sent),
{
    match http::settle(Call::SessionsNew, sent) {
        Ok(answer) => match answer.error_code {
            Some(code) => Err(ApiError::Reported { call: Call::SessionsNew, code, detail: None }),
            None => Ok(answer.session_id),
        },
        Err(e) => Err(e),
    }
}

/// Publishes local tracks: sends the browser's offer, to get the SFU's answer.
pub fn publish_tracks(
    cfg: &Config,
    session_id: &str,
    offer_sdp: &str,
    tracks: &[LocalTrack<'_>],
) -> (r: JsonRequest)
    requires
        cfg.cloudflare is Some,
    ensures
        r.request@ == asked_of(*cfg, Method::Post, session_id@, "/tracks/new"@),
        r.document@ == (DocumentView {
            session_description: Some((SdpKind::Offer, offer_sdp@)),
            tracks: Some(local_entries(tracks@)),
            force: None,
        }),
        r.document.tracks matches Some(entries) && {
            &&& entries@.len() == tracks@.len()
            &&& forall|i: int|
                0 <= i < tracks@.len() ==> (#[trigger] entries@[i] matches TrackEntry::Local {
                    location,
                    mid,
                    track_name,
                } && location@ == tracks@[i].location@ && mid@ == tracks@[i].mid@ && track_name@
                    == tracks@[i].track_name@)
        },
{
    let mut entries: Vec<TrackEntry> = Vec::new();
    let mut i: usize = 0;
    while i < tracks.len()
        invariant
            i <= tracks@.len(),
            entries@.len() == i,
            forall|k: int|
                0 <= k < i ==> (#[trigger] entries@[k] matches TrackEntry::Local {
                    location,
                    mid,
                    track_name,
                } && location@ == tracks@[k].location@ && mid@ == tracks@[k].mid@ && track_name@
                    == tracks@[k].track_name@),
            entry_views(entries@) == local_entries(tracks@).take(i as int),
        decreases tracks.len() - i,
    {
        let ghost before = entries@;
        let entry = TrackEntry::Local {
            location: tracks[i].location,
            mid: text::owned(tracks[i].mid),
            track_name: tracks[i].track_name.clone(),
        };
        let ghost added = entry@;
        entries.push(entry);
        proof {
            let all = local_entries(tracks@);
            assert(entry_views(entries@) == entry_views(before).push(added));
            assert(all[i as int] == added);
            assert(all.take(i + 1) == all.take(i as int).push(all[i as int]));
        }
        i += 1;
    }
    assert(local_entries(tracks@).take(i as int) == local_entries(tracks@));
    tracks_new(
        cfg,
        session_id,
        Document {
            session_description: Some((SdpKind::Offer, text::owned(offer_sdp))),
            tracks: Some(entries),
            force: None,
        },
    )
}

/// Pulls remote tracks into a viewer's session. The SFU responds with an offer
/// that the viewer has to answer by `renegotiate`.
pub fn pull_tracks(cfg: &Config, session_id: &str, tracks: &[RemoteTrack]) -> (r: JsonRequest)
    requires
        cfg.cloudflare is Some,
    ensures
        r.request@ == asked_of(*cfg, Method::Post, session_id@, "/tracks/new"@),
        r.document@ == (DocumentView {
            session_description: None,
            tracks: Some(remote_entries(tracks@)),
            force: None,
        }),
        r.document.tracks matches Some(entries) && {
            &&& entries@.len() == tracks@.len()
            &&& forall|i: int|
                0 <= i < tracks@.len() ==> (#[trigger] entries@[i] matches TrackEntry::Remote {
                    location,
                    session_id,
                    track_name,
                } && location@ == tracks@[i].location@ && session_id@ == tracks@[i].session_id@
                    && track_name@ == tracks@[i].track_name@)
        },
{
    let mut entries: Vec<TrackEntry> = Vec::new();
    let mut i: usize = 0;
    while i < tracks.len()
        invariant
            i <= tracks@.len(),
            entries@.len() == i,
            forall|k: int|
                0 <= k < i ==> (#[trigger] entries@[k] matches TrackEntry::Remote {
                    location,
                    session_id,
                    track_name,
                } && location@ == tracks@[k].location@ && session_id@ == tracks@[k].session_id@
                    && track_name@ == tracks@[k].track_name@),
            entry_views(entries@) == remote_entries(tracks@).take(i as int),
        decreases tracks.len() - i,
    {
        let ghost before = entries@;
        let entry = TrackEntry::Remote {
            location: tracks[i].location,
            session_id: tracks[i].session_id.clone(),
            track_name: tracks[i].track_name.clone(),
        };
        let ghost added = entry@;
        entries.push(entry);
        proof {
            let all = remote_entries(tracks@);
            assert(entry_views(entries@) == entry_views(before).push(added));
            assert(all[i as int] == added);
            assert(all.take(i + 1) == all.take(i as int).push(all[i as int]));
        }
        i += 1;
    }
    assert(remote_entries(tracks@).take(i as int) == remote_entries(tracks@));
    tracks_new(
        cfg,
        session_id,
        Document { session_description: None, tracks: Some(entries), force: None },
    )
}

fn tracks_new(cfg: &Config, session_id: &str, document: Document) -> (r: JsonRequest)
    requires
        cfg.cloudflare is Some,
    ensures
        r.request@ == asked_of(*cfg, Method::Post, session_id@, "/tracks/new"@),
        r.document == document,
{
    JsonRequest { request: ask_of(cfg, Method::Post, session_id, "/tracks/new"), document }
}

/// A description, or nothing where there is none.
pub open spec fn or_empty(description: Option<String>) -> Seq<char> {
    match description {
        Some(text) => text@,
        None => Seq::empty(),
    }
}

fn described(description: Option<String>) -> (r: String)
    ensures
        r@ == or_empty(description),
{
    match description {
        Some(text) => text,
        None => String::new(),
    }
}

/// What an answer about tracks comes to, as long as it reports no error of its
/// own.
pub open spec fn accepted(call: Call, sent: Sent<TracksResponse>) -> Result<
    TracksResponse,
    http::ApiErrorView,
> {
    match http::outcome(call, sent) {
        Ok(answer) => match answer.error_code {
            Some(code) => Err(
                http::ApiErrorView::Reported {
                    call,
                    code: code@,
                    detail: Some(or_empty(answer.error_description)),
                },
            ),
            None => Ok(answer),
        },
        Err(e) => Err(e),
    }
}

fn accept(call: Call, sent: Sent<TracksResponse>) -> (r: Result<TracksResponse, ApiError>)
    requires
        sent.wf(),
    ensures
        http::plain(r) == accepted(call, sent),
{
    match http::settle(call, sent) {
        Ok(answer) => match answer.error_code {
            Some(code) => Err(
                ApiError::Reported {
                    call,
                    code,
                    detail: Some(described(answer.error_description)),
                },
            ),
            None => Ok(answer),
        },
        Err(e) => Err(e),
    }
}

/// What came of publishing or pulling tracks.
pub fn tracks_added(sent: Sent<TracksResponse>) -> (r: Result<TracksResponse, ApiError>)
    requires
        sent.wf(),
    ensures
        http::plain(r) == accepted(Call::TracksNew, sent),
{
    accept(Call::TracksNew, sent)
}

fn mids_of(mids: &[String], from: usize, to: usize) -> (r: Vec<TrackEntry>)
    requires
        from <= to <= mids@.len(),
    ensures
        entry_views(r@) == mid_entries(text::texts(mids@).subrange(from as int, to as int)),
{
    let ghost all = text::texts(mids@);
    let mut entries: Vec<TrackEntry> = Vec::new();
    let mut i: usize = from;
    while i < to
        invariant
            from <= i <= to <= mids@.len(),
            all == text::texts(mids@),
            entry_views(entries@) == mid_entries(all.subrange(from as int, i as int)),
        decreases to - i,
    {
        let ghost before = entries@;
        entries.push(TrackEntry::Mid(mids[i].clone()));
        proof {
            let seen = all.subrange(from as int, i as int);
            assert(entry_views(entries@) == entry_views(before).push(
                TrackEntryView::Mid(all[i as int]),
            ));
            assert(all.subrange(from as int, i + 1) == seen.push(all[i as int]));
            assert(mid_entries(seen.push(all[i as int])) == mid_entries(seen).push(
                TrackEntryView::Mid(all[i as int]),
            ));
        }
        i += 1;
    }
    entries
}

/// Closes pulled tracks, so that the SFU stops sending them. The browser stops the
/// transceivers and offers; Cloudflare answers with those sections rejected.
pub fn close_tracks(cfg: &Config, session_id: &str, mids: &[String], offer_sdp: &str) -> (r:
    JsonRequest)
    requires
        cfg.cloudflare is Some,
    ensures
        r.request@ == asked_of(*cfg, Method::Put, session_id@, "/tracks/close"@),
        r.document@ == (DocumentView {
            session_description: Some((SdpKind::Offer, offer_sdp@)),
            tracks: Some(mid_entries(text::texts(mids@))),
            force: Some(false),
        }),
{
    let entries = mids_of(mids, 0, mids.len());
    assert(text::texts(mids@).subrange(0, mids@.len() as int) == text::texts(mids@));
    JsonRequest {
        request: ask_of(cfg, Method::Put, session_id, "/tracks/close"),
        document: Document {
            session_description: Some((SdpKind::Offer, text::owned(offer_sdp))),
            tracks: Some(entries),
            force: Some(false),
        },
    }
}

/// The first error that is reported for one of the tracks: its code and its
/// description.
pub open spec fn first_track_error(tracks: Seq<TrackResult>) -> Option<(Seq<char>, Seq<char>)> {
    match search::first_at(tracks, |t: TrackResult| t.error_code is Some) {
        Some(i) => Some((tracks[i].error_code->0@, or_empty(tracks[i].error_description))),
        None => None,
    }
}

proof fn first_track_error_stays(tracks: Seq<TrackResult>, n: int)
    requires
        0 <= n <= tracks.len(),
        first_track_error(tracks.take(n)) is Some,
    ensures
        first_track_error(tracks) == first_track_error(tracks.take(n)),
{
    let p = |t: TrackResult| t.error_code is Some;
    search::first_at_finds(tracks.take(n), p);
    search::first_at_stays(tracks, p, n);
}

fn find_track_error(tracks: &Vec<TrackResult>) -> (r: Option<(String, String)>)
    ensures
        match r {
            Some((code, detail)) => first_track_error(tracks@) == Some((code@, detail@)),
            None => first_track_error(tracks@) is None,
        },
{
    let mut i: usize = 0;
    assert(tracks@.take(0) == Seq::<TrackResult>::empty());
    while i < tracks.len()
        invariant
            i <= tracks@.len(),
            first_track_error(tracks@.take(i as int)) is None,
        decreases tracks.len() - i,
    {
        assert(tracks@.take(i + 1).drop_last() == tracks@.take(i as int));
        if let Some(code) = &tracks[i].error_code {
            proof {
                first_track_error_stays(tracks@, i + 1);
            }
            return Some((code.clone(), described(text::copy_opt(&tracks[i].error_description))));
        }
        i += 1;
    }
    assert(tracks@.take(i as int) == tracks@);
    None
}

/// What an answer about tracks comes to, as long as it reports no error of its
/// own and none for any of the tracks.
pub open spec fn all_accepted(call: Call, sent: Sent<TracksResponse>) -> Result<
    TracksResponse,
    http::ApiErrorView,
> {
    match accepted(call, sent) {
        Ok(answer) => match first_track_error(answer.tracks@) {
            Some((code, detail)) => Err(http::ApiErrorView::TrackReported { call, code, detail }),
            None => Ok(answer),
        },
        Err(e) => Err(e),
    }
}

fn accept_all(call: Call, sent: Sent<TracksResponse>) -> (r: Result<TracksResponse, ApiError>)
    requires
        sent.wf(),
    ensures
        http::plain(r) == all_accepted(call, sent),
{
    match accept(call, sent) {
        Ok(answer) => match find_track_error(&answer.tracks) {
            Some((code, detail)) => Err(ApiError::TrackReported { call, code, detail }),
            None => Ok(answer),
        },
        Err(e) => Err(e),
    }
}

/// The SFU's answer to the browser's offer, out of what came of closing tracks.
pub open spec fn closed(sent: Sent<TracksResponse>) -> Result<Seq<char>, http::ApiErrorView> {
    match all_accepted(Call::TracksClose, sent) {
        Ok(answer) => match answer.session_description {
            Some(description) => Ok(description.sdp@),
            None => Err(http::ApiErrorView::NoAnswer(Call::TracksClose)),
        },
        Err(e) => Err(e),
    }
}

/// The SFU's answer to the browser's offer, out of what came of closing tracks. A
/// failure of one track means that the SFU may still be forwarding it, so it
/// fails the whole.
pub fn tracks_closed(sent: Sent<TracksResponse>) -> (r: Result<String, ApiError>)
    requires
        sent.wf(),
    ensures
        plain_text(r) == closed(sent),
{
    match accept_all(Call::TracksClose, sent) {
        Ok(answer) => match answer.session_description {
            Some(description) => Ok(description.sdp),
            None => Err(ApiError::NoAnswer(Call::TracksClose)),
        },
        Err(e) => Err(e),
    }
}

/// The smaller of two numbers.
pub open spec fn at_most(n: int, limit: int) -> int {
    if n < limit {
        n
    } else {
        limit
    }
}

/// The tracks of the `k`-th of the requests that close some tracks by force.
pub open spec fn chunk(mids: Seq<Seq<char>>, k: int) -> Seq<Seq<char>> {
    mids.subrange(
        k * FORCE_CLOSE_CHUNK,
        at_most((k + 1) * FORCE_CLOSE_CHUNK, mids.len() as int),
    )
}

/// How many requests it takes to close so many tracks by force.
pub open spec fn chunk_count(n: int) -> int {
    (n + FORCE_CLOSE_CHUNK - 1) / (FORCE_CLOSE_CHUNK as int)
}

/// The document that closes some tracks by force.
pub open spec fn force_close_document(mids: Seq<Seq<char>>) -> DocumentView {
    DocumentView {
        session_description: None,
        tracks: Some(mid_entries(mids)),
        force: Some(true),
    }
}

/// Stops media on every one of these sections at once, without an offer of the
/// browser: the requests to be made, in turn, until one of them fails. This is
/// how access is revoked when a connection, a share or a session ends.
pub fn force_close_tracks(cfg: &Config, session_id: &str, mids: &[String]) -> (r: Vec<JsonRequest>)
    requires
        cfg.cloudflare is Some,
    ensures
        r@.len() == chunk_count(mids@.len() as int),
        forall|k: int|
            0 <= k < r@.len() ==> (#[trigger] r@[k]).request@ == asked_of(
                *cfg,
                Method::Put,
                session_id@,
                "/tracks/close"@,
            ) && r@[k].document@ == force_close_document(chunk(text::texts(mids@), k)),
{
    let mut r: Vec<JsonRequest> = Vec::new();
    let mut i: usize = 0;
    while i < mids.len()
        invariant
            cfg.cloudflare is Some,
            i <= mids.len(),
            i == r@.len() * FORCE_CLOSE_CHUNK || (i == mids@.len() && r@.len() == chunk_count(
                mids@.len() as int,
            )),
            forall|k: int|
                0 <= k < r@.len() ==> (#[trigger] r@[k]).request@ == asked_of(
                    *cfg,
                    Method::Put,
                    session_id@,
                    "/tracks/close"@,
                ) && r@[k].document@ == force_close_document(chunk(text::texts(mids@), k)),
        decreases mids.len() - i,
    {
        let end: usize = if mids.len() - i < FORCE_CLOSE_CHUNK {
            mids.len()
        } else {
            i + FORCE_CLOSE_CHUNK
        };
        r.push(force_close_track_chunk(cfg, session_id, mids, i, end));
        i = end;
    }
    r
}

/// Stops media on the sections `mids[from..to]`.
fn force_close_track_chunk(
    cfg: &Config,
    session_id: &str,
    mids: &[String],
    from: usize,
    to: usize,
) -> (r: JsonRequest)
    requires
        cfg.cloudflare is Some,
        from <= to <= mids@.len(),
    ensures
        r.request@ == asked_of(*cfg, Method::Put, session_id@, "/tracks/close"@),
        r.document@ == force_close_document(
            text::texts(mids@).subrange(from as int, to as int),
        ),
{
    JsonRequest {
        request: ask_of(cfg, Method::Put, session_id, "/tracks/close"),
        document: Document {
            session_description: None,
            tracks: Some(mids_of(mids, from, to)),
            force: Some(true),
        },
    }
}

/// What came of closing some tracks by force.
pub open spec fn forced(sent: Sent<TracksResponse>) -> Result<(), http::ApiErrorView> {
    match all_accepted(Call::ForcedTracksClose, sent) {
        Ok(_) => Ok(()),
        Err(e) => Err(e),
    }
}

/// What came of closing some tracks by force.
pub fn tracks_force_closed(sent: Sent<TracksResponse>) -> (r: Result<(), ApiError>)
    requires
        sent.wf(),
    ensures
        http::plain(r) == forced(sent),
{
    match accept_all(Call::ForcedTracksClose, sent) {
        Ok(_) => Ok(()),
        Err(e) => Err(e),
    }
}

/// How a forced close of several requests goes on.
pub enum ForceClose {
    /// Make the request at this position.
    Send(usize),
    /// Every request has been made, and all is closed.
    Done,
    /// A request failed: make no other, and report this.
    Failed(ApiError),
}

/// How a forced close goes on, as plain values.
pub enum ForceCloseView {
    Send(int),
    Done,
    Failed(http::ApiErrorView),
}

impl View for ForceClose {
    type V = ForceCloseView;

    open spec fn view(&self) -> ForceCloseView {
        match *self {
            ForceClose::Send(i) => ForceCloseView::Send(i as int),
            ForceClose::Done => ForceCloseView::Done,
            ForceClose::Failed(e) => ForceCloseView::Failed(e@),
        }
    }
}

/// A forced close of so many requests that stands before the request at `next`.
pub open spec fn force_close_from(total: int, next: int) -> ForceCloseView {
    if next < total {
        ForceCloseView::Send(next)
    } else {
        ForceCloseView::Done
    }
}

/// A forced close of so many requests after what came of the one at `i`.
pub open spec fn force_close_after(total: int, i: int, sent: Sent<TracksResponse>) -> ForceCloseView {
    match forced(sent) {
        Ok(_) => force_close_from(total, i + 1),
        Err(e) => ForceCloseView::Failed(e),
    }
}

/// How a forced close of so many requests begins.
pub fn begin_force_close(total: usize) -> (r: ForceClose)
    ensures
        r@ == force_close_from(total as int, 0),
        if total > 0 {
            r == ForceClose::Send(0)
        } else {
            r is Done
        },
{
    if total > 0 {
        ForceClose::Send(0)
    } else {
        ForceClose::Done
    }
}

/// How a forced close of so many requests goes on after what came of the one at `i`:
/// the first that fails ends it.
pub fn continue_force_close(total: usize, i: usize, sent: Sent<TracksResponse>) -> (r: ForceClose)
    requires
        i < total,
        sent.wf(),
    ensures
        r@ == force_close_after(total as int, i as int, sent),
        match forced(sent) {
            Ok(_) => if i + 1 < total {
                r == ForceClose::Send((i + 1) as usize)
            } else {
                r is Done
            },
            Err(e) => r matches ForceClose::Failed(error) && error@ == e,
        },
{
    match tracks_force_closed(sent) {
        Ok(_) => if i + 1 < total {
            ForceClose::Send(i + 1)
        } else {
            ForceClose::Done
        },
        Err(e) => ForceClose::Failed(e),
    }
}

/// A forced close of so many requests, given what would come of each in turn. Once it
/// is over, no request is made and no reply counts.
pub open spec fn force_close_run(total: int, replies: Seq<Sent<TracksResponse>>) -> ForceCloseView
    decreases replies.len(),
{
    if replies.len() == 0 {
        force_close_from(total, 0)
    } else {
        match force_close_run(total, replies.drop_last()) {
            ForceCloseView::Send(i) => force_close_after(total, i, replies.last()),
            over => over,
        }
    }
}

/// A forced close is reported as done exactly where every request was made, each once
/// and in turn, and none failed. One that failed is reported with the error of the
/// first request that did, and none was made after that one.
pub proof fn force_close_stops_at_the_first_failure(
    total: int,
    replies: Seq<Sent<TracksResponse>>,
)
    requires
        0 <= total,
    ensures
        match force_close_run(total, replies) {
            ForceCloseView::Send(i) => {
                &&& i == replies.len() < total
                &&& forall|j: int| 0 <= j < i ==> forced(#[trigger] replies[j]) is Ok
            },
            ForceCloseView::Done => {
                &&& total <= replies.len()
                &&& forall|j: int| 0 <= j < total ==> forced(#[trigger] replies[j]) is Ok
            },
            ForceCloseView::Failed(e) => exists|i: int|
                {
                    &&& 0 <= i < replies.len() && i < total
                    &&& forced(#[trigger] replies[i]) == Err::<(), http::ApiErrorView>(e)
                    &&& forall|j: int| 0 <= j < i ==> forced(#[trigger] replies[j]) is Ok
                    &&& force_close_run(total, replies.take(i)) == ForceCloseView::Send(i)
                    &&& forall|k: int|
                        i < k <= replies.len() ==> force_close_run(
                            total,
                            #[trigger] replies.take(k),
                        ) == ForceCloseView::Failed(e)
                },
        },
    decreases replies.len(),
{
    if replies.len() > 0 {
        let rest = replies.drop_last();
        let n = rest.len() as int;
        force_close_stops_at_the_first_failure(total, rest);
        assert forall|j: int| 0 <= j < n implies #[trigger] rest[j] == replies[j] by {}
        assert(replies.take(n) == rest);
        assert(replies.take(n + 1) == replies);
        match force_close_run(total, rest) {
            ForceCloseView::Send(i) => {
                assert(replies[i] == replies.last());
                if let ForceCloseView::Failed(e) = force_close_run(total, replies) {
                    assert forall|k: int| i < k <= replies.len() implies force_close_run(
                        total,
                        #[trigger] replies.take(k),
                    ) == ForceCloseView::Failed(e) by {
                        assert(k == n + 1);
                    }
                    assert(forced(replies[i]) == Err::<(), http::ApiErrorView>(e));
                }
            },
            ForceCloseView::Done => {
                assert forall|j: int| 0 <= j < total implies forced(
                    #[trigger] replies[j],
                ) is Ok by {
                    assert(forced(rest[j]) is Ok);
                }
            },
            ForceCloseView::Failed(e) => {
                let i = choose|i: int|
                    {
                        &&& 0 <= i < rest.len() && i < total
                        &&& forced(#[trigger] rest[i]) == Err::<(), http::ApiErrorView>(e)
                        &&& forall|j: int| 0 <= j < i ==> forced(#[trigger] rest[j]) is Ok
                        &&& force_close_run(total, rest.take(i)) == ForceCloseView::Send(i)
                        &&& forall|k: int|
                            i < k <= rest.len() ==> force_close_run(
                                total,
                                #[trigger] rest.take(k),
                            ) == ForceCloseView::Failed(e)
                    };
                assert(rest.take(i) == replies.take(i));
                assert forall|j: int| 0 <= j < i implies forced(#[trigger] replies[j]) is Ok by {
                    assert(forced(rest[j]) is Ok);
                }
                assert forall|k: int| i < k <= replies.len() implies force_close_run(
                    total,
                    #[trigger] replies.take(k),
                ) == ForceCloseView::Failed(e) by {
                    if k <= n {
                        assert(rest.take(k) == replies.take(k));
                    }
                }
                assert(forced(replies[i]) == Err::<(), http::ApiErrorView>(e));
            },
        }
    }
}

/// Hands in the viewer's answer to the offer that a pull led to.
pub fn renegotiate(cfg: &Config, session_id: &str, answer_sdp: &str) -> (r: JsonRequest)
    requires
        cfg.cloudflare is Some,
    ensures
        r.request@ == asked_of(*cfg, Method::Put, session_id@, "/renegotiate"@),
        r.document@ == (DocumentView {
            session_description: Some((SdpKind::Answer, answer_sdp@)),
            tracks: None,
            force: None,
        }),
{
    JsonRequest {
        request: ask_of(cfg, Method::Put, session_id, "/renegotiate"),
        document: Document {
            session_description: Some((SdpKind::Answer, text::owned(answer_sdp))),
            tracks: None,
            force: None,
        },
    }
}

/// What came of handing in the viewer's answer. Nothing is read out of the body.
pub open spec fn handed_in(sent: Sent<()>) -> Result<(), http::ApiErrorView> {
    match sent {
        Sent::Answered { status, body, .. } => http::outcome(
            Call::Renegotiate,
            Sent::Answered { status, body, parsed: Some(()) },
        ),
        Sent::Unreachable => Err(http::ApiErrorView::Unreachable(Call::Renegotiate)),
    }
}

/// What came of handing in the viewer's answer. Nothing is read out of the body.
pub fn renegotiated(sent: Sent<()>) -> (r: Result<(), ApiError>)
    requires
        sent.wf(),
    ensures
        http::plain(r) == handed_in(sent),
{
    match sent {
        Sent::Answered { status, body, .. } => http::settle(
            Call::Renegotiate,
            Sent::Answered { status, body, parsed: Some(()) },
        ),
        Sent::Unreachable => Err(ApiError::Unreachable(Call::Renegotiate)),
    }
}

/// `first_track_error` finds an error exactly where one is reported for some
/// track.
pub proof fn first_track_error_finds(tracks: Seq<TrackResult>)
    ensures
        first_track_error(tracks) is None <==> forall|i: int|
            0 <= i < tracks.len() ==> (#[trigger] tracks[i]).error_code is None,
{
    let p = |t: TrackResult| t.error_code is Some;
    search::first_at_finds(tracks, p);
    if first_track_error(tracks) is None {
        assert forall|i: int| 0 <= i < tracks.len() implies (#[trigger] tracks[i]).error_code
            is None by {
            assert(!p(tracks[i]));
        }
    }
}

/// No close is reported as done while the SFU reports a failure of any track: a
/// track that it may still be forwarding is never passed over.
pub proof fn track_failure_fails_the_close(sent: Sent<TracksResponse>, i: int)
    requires
        sent matches Sent::Answered { parsed: Some(answer), .. } && 0 <= i < answer.tracks@.len()
            && answer.tracks@[i].error_code is Some,
    ensures
        closed(sent) is Err,
        forced(sent) is Err,
{
    first_track_error_finds(sent->parsed->0.tracks@);
}

/// Closing by force leaves no track out and names none twice: the `i`-th track is
/// named by one request, at one place in it, and no request names more than the
/// limit or nothing at all.
pub proof fn force_close_names_every_track_once(mids: Seq<Seq<char>>)
    ensures
        forall|i: int|
            0 <= i < mids.len() ==> {
                let k = i / (FORCE_CLOSE_CHUNK as int);
                let at = i % (FORCE_CLOSE_CHUNK as int);
                &&& 0 <= k < chunk_count(mids.len() as int)
                &&& 0 <= at < chunk(mids, k).len()
                &&& chunk(mids, k)[at] == #[trigger] mids[i]
            },
        forall|k: int|
            0 <= k < chunk_count(mids.len() as int) ==> 0 < (#[trigger] chunk(mids, k)).len()
                <= FORCE_CLOSE_CHUNK,
        forall|k: int, at: int|
            0 <= k < chunk_count(mids.len() as int) && 0 <= at < chunk(mids, k).len()
                ==> k * FORCE_CLOSE_CHUNK + at < mids.len() && #[trigger] chunk(mids, k)[at]
                == mids[k * FORCE_CLOSE_CHUNK + at],
{
}

/// Every request goes to the configured app of Cloudflare's service, by the method that is
/// meant, and authorises itself with the app's secret; one about a session names it.
pub proof fn requests_go_to_the_app(
    cfg: Config,
    method: Method,
    session_id: Seq<char>,
    path: Seq<char>,
)
    ensures
        ({
            let app = "https://rtc.live.cloudflare.com/v1/apps"@ + "/"@
                + cfg.cloudflare->0.app_id@;
            let secret = http::CredentialsView::Bearer(cfg.cloudflare->0.app_secret@);
            let general = asked(cfg, method, path);
            let about = asked_of(cfg, method, session_id, path);
            &&& general.method == method && about.method == method
            &&& general.credentials == secret && about.credentials == secret
            &&& general.url == app + path
            &&& about.url == app + ("/sessions/"@ + session_id + path)
        }),
{
}

/// The tracks of a request are those handed in, one entry each and in their order: published
/// ones with location, section and name, pulled ones with location, session and name, closed
/// ones with their section.
pub proof fn requests_name_the_tracks_handed_in(
    published: Seq<LocalTrack>,
    pulled: Seq<RemoteTrack>,
    mids: Seq<Seq<char>>,
    i: int,
)
    ensures
        local_entries(published).len() == published.len(),
        remote_entries(pulled).len() == pulled.len(),
        mid_entries(mids).len() == mids.len(),
        0 <= i < published.len() ==> (local_entries(published)[i] matches TrackEntryView::Local {
            location,
            mid,
            track_name,
        } && location == published[i].location@ && mid == published[i].mid@ && track_name
            == published[i].track_name@),
        0 <= i < pulled.len() ==> (remote_entries(pulled)[i] matches TrackEntryView::Remote {
            location,
            session_id,
            track_name,
        } && location == pulled[i].location@ && session_id == pulled[i].session_id@ && track_name
            == pulled[i].track_name@),
        0 <= i < mids.len() ==> mid_entries(mids)[i] == TrackEntryView::Mid(mids[i]),
        force_close_document(mids).force == Some(true),
        force_close_document(mids).session_description is None,
        force_close_document(mids).tracks matches Some(entries) && entries.len() == mids.len() && (0
            <= i < mids.len() ==> entries[i] == TrackEntryView::Mid(mids[i])),
{
}

/// A session has been opened exactly where the answer reports success, can be read and
/// reports no error, and its id is the one in the answer. An error in it is reported with its
/// code.
pub proof fn opened_session_is_the_answered_one(
    status: u16,
    body: String,
    parsed: Option<NewSession>,
)
    ensures
        opened(Sent::Unreachable) is Err,
        ({
            let r = opened(Sent::Answered { status, body, parsed });
            if status / 100 == 2 && parsed is Some {
                match parsed->0.error_code {
                    None => r == Ok::<Seq<char>, http::ApiErrorView>(parsed->0.session_id@),
                    Some(code) => r matches Err(http::ApiErrorView::Reported { call, code: c, .. })
                        && call is SessionsNew && c == code@,
                }
            } else {
                r is Err
            }
        }),
{
}

/// An answer about tracks is accepted exactly where it reports success, can be read and
/// reports no error of its own, and then it is handed on whole. An error in it is reported
/// with its code and its description.
pub proof fn accepted_answer_is_handed_on(
    call: Call,
    status: u16,
    body: String,
    parsed: Option<TracksResponse>,
)
    ensures
        accepted(call, Sent::Unreachable) is Err,
        ({
            let r = accepted(call, Sent::Answered { status, body, parsed });
            if status / 100 == 2 && parsed is Some {
                let answer = parsed->0;
                match answer.error_code {
                    None => r == Ok::<TracksResponse, http::ApiErrorView>(answer),
                    Some(code) => r matches Err(
                        http::ApiErrorView::Reported { call: c, code: reported, detail },
                    ) && {
                        &&& c == call
                        &&& reported == code@
                        &&& detail is Some
                        &&& answer.error_description matches Some(why) ==> detail->0 == why@
                        &&& answer.error_description is None ==> detail->0.len() == 0
                    },
                }
            } else {
                r is Err
            }
        }),
{
}

/// The first failure that is reported for a track is the one found: no track before it has
/// one, and it is told with its code and its description.
pub proof fn first_track_error_is_told(tracks: Seq<TrackResult>, i: int)
    requires
        0 <= i < tracks.len(),
        tracks[i].error_code is Some,
        forall|j: int| 0 <= j < i ==> (#[trigger] tracks[j]).error_code is None,
    ensures
        first_track_error(tracks) matches Some((code, detail)) && {
            &&& code == tracks[i].error_code->0@
            &&& tracks[i].error_description matches Some(why) ==> detail == why@
            &&& tracks[i].error_description is None ==> detail.len() == 0
        },
{
    let p = |t: TrackResult| t.error_code is Some;
    search::first_at_finds(tracks, p);
    assert(p(tracks[i]));
    let at: int = search::first_at(tracks, p)->0;
    if at < i {
        assert(tracks[at].error_code is None);
    }
}

/// Tracks have been closed exactly where the answer reports success, can be read and reports
/// no error, neither its own nor one of a track. An ordinary close also owes a session
/// description, and gives that one; a forced one owes nothing.
pub proof fn close_succeeds_only_without_errors(
    status: u16,
    body: String,
    parsed: Option<TracksResponse>,
)
    ensures
        closed(Sent::Unreachable) is Err,
        forced(Sent::Unreachable) is Err,
        ({
            let sent = Sent::Answered { status, body, parsed };
            let clean = {
                &&& status / 100 == 2
                &&& parsed is Some
                &&& parsed->0.error_code is None
                &&& forall|i: int|
                    0 <= i < parsed->0.tracks@.len() ==> (
                    #[trigger] parsed->0.tracks@[i]).error_code is None
            };
            &&& forced(sent) is Ok <==> clean
            &&& closed(sent) is Ok <==> clean && parsed->0.session_description is Some
            &&& closed(sent) matches Ok(sdp) ==> sdp == parsed->0.session_description->0.sdp@
        }),
{
    if parsed is Some {
        first_track_error_finds(parsed->0.tracks@);
    }
}

/// An answer was handed in exactly where the service reports success, whatever its body says.
pub proof fn renegotiation_counts_by_its_status(status: u16, body: String, parsed: Option<()>)
    ensures
        handed_in(Sent::Unreachable) is Err,
        handed_in(Sent::Answered { status, body, parsed }) is Ok <==> status / 100 == 2,
{
}

/// Every request of a forced close but the last names 64 tracks, and the last names those that
/// are left.
pub proof fn force_close_fills_its_requests(mids: Seq<Seq<char>>, k: int)
    requires
        0 <= k < chunk_count(mids.len() as int),
    ensures
        mids.len() - 64 * k >= 64 ==> chunk(mids, k).len() == 64,
        mids.len() - 64 * k < 64 ==> k == chunk_count(mids.len() as int) - 1 && chunk(mids, k).len()
            == mids.len() - 64 * k,
        64 * k < mids.len(),
{
}

} // verus!
