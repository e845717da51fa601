//! The websocket side of a room: who is admitted, what a connection may ask
//! for, and what is left behind when it goes.

use vstd::prelude::*;
use vstd::utf8;

use crate::auth::Claims;
use crate::state;
use crate::state::{AppState, Delivery, Effect, Peer, Room, RoomSlot, ServerMsg};
use crate::text;

verus! {

/// How often membership of the activity instance is verified again. Leaving the
/// voice channel cuts access within this window.
pub const MEMBERSHIP_RECHECK_SECS: u64 = 300;

/// Transient failures of the membership check are retried, but access is revoked
/// once the check has been unavailable for this long.
pub const MEMBERSHIP_ERROR_GRACE_SECS: u64 = 60;

pub const MEMBERSHIP_ERROR_RETRY_SECS: u64 = 30;

/// How long a new connection has to hand in its token.
pub const HANDSHAKE_TIMEOUT_SECS: u64 = 10;

/// How often a keepalive is sent, so that idle proxies do not cut viewers off.
pub const PING_INTERVAL_SECS: u64 = 30;

/// How many messages may wait for one connection.
pub const OUTGOING_QUEUE_CAPACITY: usize = 64;

pub const MAX_WS_CONNECTIONS_PER_USER: usize = 8;

pub const MAX_WS_CONNECTIONS_PER_ROOM: usize = 128;

pub const MAX_WS_CONNECTIONS_TOTAL: usize = 512;

/// How many share ids one subscription list may name.
pub const MAX_WATCHING_IDS: usize = 128;

/// How many bytes a share id in a subscription list may have.
pub const MAX_SHARE_ID_BYTES: usize = 64;

pub const MAX_WS_MESSAGE_BYTES: usize = 65536;

/// Why a connection is turned away.
#[derive(Clone, Copy, PartialEq, Eq, Structural)]
pub enum JoinRefusal {
    /// The server holds as many connections as it takes.
    ServerFull,
    /// The activity instance does.
    ActivityFull,
    /// The user does.
    UserFull,
}

impl JoinRefusal {
    /// The reason as the client is told it.
    pub open spec fn reason_text(self) -> Seq<char> {
        match self {
            JoinRefusal::ServerFull => "server connection capacity reached"@,
            JoinRefusal::ActivityFull => "activity connection capacity reached"@,
            JoinRefusal::UserFull => "too many connections for this user"@,
        }
    }

    /// The reason as the client is told it.
    pub fn reason(&self) -> (r: &'static str)
        ensures
            r@ == self.reason_text(),
    {
        match self {
            JoinRefusal::ServerFull => "server connection capacity reached",
            JoinRefusal::ActivityFull => "activity connection capacity reached",
            JoinRefusal::UserFull => "too many connections for this user",
        }
    }
}

/// Every instance has one room, no room holds a connection or a share twice, and
/// no limit on connections is exceeded.
pub open spec fn rooms_wf(slots: Seq<state::RoomSlotView>) -> bool {
    &&& forall|i: int, j: int|
        0 <= i < j < slots.len() ==> #[trigger] slots[i].instance_id
            != #[trigger] slots[j].instance_id
    &&& forall|i: int| 0 <= i < slots.len() ==> (#[trigger] slots[i]).room.wf()
    &&& forall|i: int|
        0 <= i < slots.len() ==> (#[trigger] slots[i]).room.peers.len()
            <= MAX_WS_CONNECTIONS_PER_ROOM
    &&& state::total_connections(slots) <= MAX_WS_CONNECTIONS_TOTAL
    &&& forall|user: Seq<char>| #[trigger]
        state::user_connections(slots, user) <= MAX_WS_CONNECTIONS_PER_USER
}

/// How many connections the room of an instance holds.
pub open spec fn room_connections(slots: Seq<state::RoomSlotView>, instance_id: Seq<char>) -> nat {
    match state::room_of(slots, instance_id) {
        Some(room) => room.peers.len(),
        None => 0,
    }
}

/// Why a connection of this user to this instance is turned away, if it is.
pub open spec fn refusal(
    slots: Seq<state::RoomSlotView>,
    user_id: Seq<char>,
    instance_id: Seq<char>,
) -> Option<JoinRefusal> {
    if state::total_connections(slots) >= MAX_WS_CONNECTIONS_TOTAL {
        Some(JoinRefusal::ServerFull)
    } else if room_connections(slots, instance_id) >= MAX_WS_CONNECTIONS_PER_ROOM {
        Some(JoinRefusal::ActivityFull)
    } else if state::user_connections(slots, user_id) >= MAX_WS_CONNECTIONS_PER_USER {
        Some(JoinRefusal::UserFull)
    } else {
        None
    }
}

/// The room of an instance, or an empty one where it has none.
pub open spec fn room_or_new(
    slots: Seq<state::RoomSlotView>,
    instance_id: Seq<char>,
) -> state::RoomView {
    match state::room_of(slots, instance_id) {
        Some(room) => room,
        None => state::RoomView { peers: Seq::empty(), shares: Seq::empty() },
    }
}

/// The peer that a session becomes when it connects: it watches nothing yet.
pub open spec fn fresh_peer(claims: Claims, conn_id: u64) -> state::PeerView {
    state::PeerView {
        conn_id,
        user_id: claims.sub@,
        role: claims.role,
        watching_video: Set::empty(),
        watching_audio: Set::empty(),
    }
}

/// The room that a session joins, with the session in it.
pub open spec fn joined_room(
    slots: Seq<state::RoomSlotView>,
    claims: Claims,
    conn_id: u64,
) -> state::RoomView {
    let room = room_or_new(slots, claims.inst@);
    state::RoomView {
        peers: state::with_peer(room.peers, fresh_peer(claims, conn_id)),
        shares: room.shares,
    }
}

proof fn with_peer_counts(peers: Seq<state::PeerView>, peer: state::PeerView, user: Seq<char>)
    ensures
        state::with_peer(peers, peer).len() <= peers.len() + 1,
        state::peers_of(state::with_peer(peers, peer), user) <= state::peers_of(peers, user)
            + state::belongs(peer, user),
{
    state::peer_at_finds(peers, peer.conn_id);
    match state::peer_at(peers, peer.conn_id) {
        Some(i) => {
            state::peers_of_update(peers, user, i, peer);
        },
        None => {
            assert(peers.push(peer).drop_last() == peers);
        },
    }
}

proof fn with_peer_wf(room: state::RoomView, peer: state::PeerView)
    requires
        room.wf(),
    ensures
        (state::RoomView { peers: state::with_peer(room.peers, peer), ..room }).wf(),
{
    state::peer_at_finds(room.peers, peer.conn_id);
}

proof fn with_room_counts(
    slots: Seq<state::RoomSlotView>,
    instance_id: Seq<char>,
    room: state::RoomView,
    f: spec_fn(state::RoomView) -> nat,
)
    requires
        f(state::RoomView { peers: Seq::empty(), shares: Seq::empty() }) == 0,
    ensures
        state::room_sum(state::with_room(slots, instance_id, room), f) + f(
            room_or_new(slots, instance_id),
        ) == state::room_sum(slots, f) + f(room),
{
    state::slot_at_finds(slots, instance_id);
    let slot = state::RoomSlotView { instance_id, room };
    match state::slot_at(slots, instance_id) {
        Some(i) => {
            state::room_sum_update(slots, f, i, slot);
        },
        None => {
            state::room_sum_push(slots, f, slot);
        },
    }
}

/// Putting a room with no more connections of anybody back in its place keeps
/// every limit.
proof fn with_room_keeps_limits(
    slots: Seq<state::RoomSlotView>,
    instance_id: Seq<char>,
    room: state::RoomView,
)
    requires
        rooms_wf(slots),
        state::slot_at(slots, instance_id) is Some,
        room.wf(),
        room.peers.len() <= room_or_new(slots, instance_id).peers.len(),
        forall|user: Seq<char>| #[trigger]
            state::peers_of(room.peers, user) <= state::peers_of(
                room_or_new(slots, instance_id).peers,
                user,
            ),
    ensures
        rooms_wf(state::with_room(slots, instance_id, room)),
{
    let after = state::with_room(slots, instance_id, room);
    state::slot_at_finds(slots, instance_id);
    let i = state::slot_at(slots, instance_id)->0;
    with_room_counts(slots, instance_id, room, state::all_peers());
    assert forall|user: Seq<char>| #[trigger] state::user_connections(after, user)
        <= MAX_WS_CONNECTIONS_PER_USER by {
        with_room_counts(slots, instance_id, room, state::user_peers(user));
        assert(state::peers_of(room.peers, user) <= state::peers_of(
            room_or_new(slots, instance_id).peers,
            user,
        ));
        assert(state::user_connections(slots, user) <= MAX_WS_CONNECTIONS_PER_USER);
    }
}

/// Taking a room away keeps every limit.
proof fn without_room_keeps_limits(slots: Seq<state::RoomSlotView>, instance_id: Seq<char>)
    requires
        rooms_wf(slots),
    ensures
        rooms_wf(state::without_room(slots, instance_id)),
{
    state::slot_at_finds(slots, instance_id);
    if let Some(i) = state::slot_at(slots, instance_id) {
        let after = slots.remove(i);
        state::room_sum_remove(slots, state::all_peers(), i);
        assert forall|user: Seq<char>| #[trigger] state::user_connections(after, user)
            <= MAX_WS_CONNECTIONS_PER_USER by {
            state::room_sum_remove(slots, state::user_peers(user), i);
            assert(state::user_connections(slots, user) <= MAX_WS_CONNECTIONS_PER_USER);
        }
    }
}

/// A session that is not turned away may be taken in: every limit still holds.
proof fn join_keeps_limits(slots: Seq<state::RoomSlotView>, claims: Claims, conn_id: u64)
    requires
        rooms_wf(slots),
        refusal(slots, claims.sub@, claims.inst@) is None,
    ensures
        rooms_wf(
            state::with_room(slots, claims.inst@, joined_room(slots, claims, conn_id)),
        ),
{
    let inst = claims.inst@;
    let before = room_or_new(slots, inst);
    let room = joined_room(slots, claims, conn_id);
    let after = state::with_room(slots, inst, room);
    let peer = fresh_peer(claims, conn_id);
    state::slot_at_finds(slots, inst);
    with_peer_counts(before.peers, peer, claims.sub@);
    with_peer_wf(before, peer);
    with_room_counts(slots, inst, room, state::all_peers());
    assert forall|user: Seq<char>| #[trigger] state::user_connections(after, user)
        <= MAX_WS_CONNECTIONS_PER_USER by {
        with_peer_counts(before.peers, peer, user);
        with_room_counts(slots, inst, room, state::user_peers(user));
        assert(state::user_connections(slots, user) <= MAX_WS_CONNECTIONS_PER_USER);
    }
}

/// How many connections all rooms hold together.
fn count_connections(rooms: &Vec<RoomSlot>) -> (r: usize)
    requires
        state::total_connections(rooms@.map_values(|s: RoomSlot| s@)) <= MAX_WS_CONNECTIONS_TOTAL,
    ensures
        r == state::total_connections(rooms@.map_values(|s: RoomSlot| s@)),
{
    let ghost slots = rooms@.map_values(|s: RoomSlot| s@);
    let mut n: usize = 0;
    let mut i: usize = 0;
    assert(slots.take(0) == Seq::<state::RoomSlotView>::empty());
    while i < rooms.len()
        invariant
            i <= rooms@.len(),
            slots == rooms@.map_values(|s: RoomSlot| s@),
            state::total_connections(slots) <= MAX_WS_CONNECTIONS_TOTAL,
            n == state::room_sum(slots.take(i as int), state::all_peers()),
        decreases rooms.len() - i,
    {
        proof {
            assert(slots.take(i + 1).drop_last() == slots.take(i as int));
            state::room_sum_prefix(slots, state::all_peers(), i + 1);
        }
        n += rooms[i].room.peers.len();
        i += 1;
    }
    assert(slots.take(i as int) == slots);
    n
}

/// How many of the peers belong to a user.
fn count_peers_of(peers: &Vec<Peer>, user_id: &str) -> (r: usize)
    ensures
        r == state::peers_of(state::peer_views(peers@), user_id@),
{
    let ghost views = state::peer_views(peers@);
    let mut n: usize = 0;
    let mut i: usize = 0;
    assert(views.take(0) == Seq::<state::PeerView>::empty());
    while i < peers.len()
        invariant
            i <= peers.len(),
            n <= i,
            views == state::peer_views(peers@),
            n == state::peers_of(views.take(i as int), user_id@),
        decreases peers.len() - i,
    {
        assert(views.take(i + 1).drop_last() == views.take(i as int));
        if text::same_text(peers[i].user_id.as_str(), user_id) {
            n += 1;
        }
        i += 1;
    }
    assert(views.take(i as int) == views);
    n
}

/// How many connections a user holds in all rooms together.
fn count_user_connections(rooms: &Vec<RoomSlot>, user_id: &str) -> (r: usize)
    requires
        state::user_connections(rooms@.map_values(|s: RoomSlot| s@), user_id@)
            <= MAX_WS_CONNECTIONS_PER_USER,
    ensures
        r == state::user_connections(rooms@.map_values(|s: RoomSlot| s@), user_id@),
{
    let ghost slots = rooms@.map_values(|s: RoomSlot| s@);
    let mut n: usize = 0;
    let mut i: usize = 0;
    assert(slots.take(0) == Seq::<state::RoomSlotView>::empty());
    while i < rooms.len()
        invariant
            i <= rooms@.len(),
            slots == rooms@.map_values(|s: RoomSlot| s@),
            state::user_connections(slots, user_id@) <= MAX_WS_CONNECTIONS_PER_USER,
            n == state::room_sum(slots.take(i as int), state::user_peers(user_id@)),
        decreases rooms.len() - i,
    {
        proof {
            assert(slots.take(i + 1).drop_last() == slots.take(i as int));
            state::room_sum_prefix(slots, state::user_peers(user_id@), i + 1);
        }
        n += count_peers_of(&rooms[i].room.peers, user_id);
        i += 1;
    }
    assert(slots.take(i as int) == slots);
    n
}

/// Takes a session into its room, or turns it away. A session that is taken in
/// is greeted with the shares that are live.
pub fn join(st: &mut AppState, claims: &Claims, conn_id: u64) -> (r: Result<
    ServerMsg,
    JoinRefusal,
>)
    requires
        rooms_wf(old(st).slots()),
    ensures
        rooms_wf(final(st).slots()),
        final(st).cfg == old(st).cfg,
        final(st).next_conn_id == old(st).next_conn_id,
        final(st).share_codes == old(st).share_codes,
        final(st).rtc_sessions == old(st).rtc_sessions,
        match r {
            Err(e) => {
                &&& refusal(old(st).slots(), claims.sub@, claims.inst@) == Some(e)
                &&& final(st).slots() == old(st).slots()
            },
            Ok(hello) => {
                let room = joined_room(old(st).slots(), *claims, conn_id);
                &&& refusal(old(st).slots(), claims.sub@, claims.inst@) is None
                &&& final(st).slots() == state::with_room(old(st).slots(), claims.inst@, room)
                &&& hello@ == (state::ServerMsgView::Hello { conn_id, shares: room.shares })
            },
        },
{
    let ghost slots = st.slots();
    assert(state::user_connections(slots, claims.sub@) <= MAX_WS_CONNECTIONS_PER_USER);
    let total = count_connections(&st.rooms);
    let user_total = count_user_connections(&st.rooms, claims.sub.as_str());
    let at = st.slot_index(claims.inst.as_str());
    let room_total = match at {
        Some(i) => st.rooms[i].room.peers.len(),
        None => 0,
    };
    if total >= MAX_WS_CONNECTIONS_TOTAL {
        return Err(JoinRefusal::ServerFull);
    }
    if room_total >= MAX_WS_CONNECTIONS_PER_ROOM {
        return Err(JoinRefusal::ActivityFull);
    }
    if user_total >= MAX_WS_CONNECTIONS_PER_USER {
        return Err(JoinRefusal::UserFull);
    }
    proof {
        join_keeps_limits(slots, *claims, conn_id);
        state::slot_at_finds(slots, claims.inst@);
    }
    let peer = Peer {
        conn_id,
        user_id: claims.sub.clone(),
        role: claims.role,
        watching_video: Vec::new(),
        watching_audio: Vec::new(),
    };
    proof {
        assert(text::texts(peer.watching_video@) == Seq::<Seq<char>>::empty());
        assert(peer@.watching_video == Set::<Seq<char>>::empty());
        assert(peer@.watching_audio == Set::<Seq<char>>::empty());
        assert(peer@ == fresh_peer(*claims, conn_id));
    }
    let shares = match at {
        Some(i) => {
            st.rooms[i].room.add_peer(peer);
            st.rooms[i].room.list_shares()
        },
        None => {
            let mut room = Room::new();
            room.add_peer(peer);
            let shares = room.list_shares();
            st.rooms.push(RoomSlot { instance_id: claims.inst.clone(), room });
            shares
        },
    };
    assert(st.slots() == state::with_room(
        slots,
        claims.inst@,
        joined_room(slots, *claims, conn_id),
    ));
    Ok(ServerMsg::Hello { conn_id, shares })
}

/// The share that a connection may end: one of its own, in its own room.
pub open spec fn own_share(
    slots: Seq<state::RoomSlotView>,
    instance_id: Seq<char>,
    conn_id: u64,
    share_id: Seq<char>,
) -> Option<state::ShareView> {
    match state::room_of(slots, instance_id) {
        Some(room) => match state::share_at(room.shares, share_id) {
            Some(i) => if room.shares[i].conn_id == conn_id {
                Some(room.shares[i])
            } else {
                None
            },
            None => None,
        },
        None => None,
    }
}

/// Explicit stop from the publisher page. Ownership is by connection, which is
/// stronger than by user: only the connection that registered the share may stop
/// it this way.
pub fn stop_share(
    st: &mut AppState,
    instance_id: &str,
    conn_id: u64,
    share_id: &str,
) -> (r: Vec<Effect>)
    requires
        rooms_wf(old(st).slots()),
    ensures
        rooms_wf(final(st).slots()),
        final(st).cfg == old(st).cfg,
        final(st).next_conn_id == old(st).next_conn_id,
        final(st).share_codes == old(st).share_codes,
        final(st).rtc_sessions == old(st).rtc_sessions,
        forall|n: u64|
            connected_below(old(st).slots(), n) ==> #[trigger] connected_below(final(st).slots(), n),
        match own_share(old(st).slots(), instance_id@, conn_id, share_id@) {
            Some(share) => {
                let room = room_or_new(old(st).slots(), instance_id@);
                &&& final(st).slots() == state::with_room(
                    old(st).slots(),
                    instance_id@,
                    room.without_share(share_id@),
                )
                &&& state::effect_views(r@) == state::ended_one(
                    share,
                    state::conn_ids(room.peers),
                    old(st).builtin(),
                )
            },
            None => final(st).slots() == old(st).slots() && r@.len() == 0,
        },
{
    let ghost slots = st.slots();
    let mut r: Vec<Effect> = Vec::new();
    let i = match st.slot_index(instance_id) {
        Some(i) => i,
        None => {
            return r;
        },
    };
    proof {
        state::slot_at_finds(slots, instance_id@);
        state::share_at_finds(slots[i as int].room.shares, share_id@);
        assert(slots[i as int] == st.rooms@[i as int]@);
    }
    let owned = match st.rooms[i].room.share_index(share_id) {
        Some(j) => {
            assert(slots[i as int].room.shares[j as int] == st.rooms@[i as int].room.shares@[j as int]@);
            st.rooms[i].room.shares[j].conn_id == conn_id
        },
        None => false,
    };
    if !owned {
        return r;
    }
    let ghost share = own_share(slots, instance_id@, conn_id, share_id@)->0;
    let ghost room = slots[i as int].room;
    if let Some((ended, notice)) = st.rooms[i].room.end_share(share_id) {
        r.push(Effect::Deliver(notice));
        if let Some(session_id) = st.reap_share(Some(ended)) {
            r.push(Effect::CloseSession(session_id));
        }
    }
    proof {
        assert(st.slots() == state::with_room(slots, instance_id@, room.without_share(share_id@)));
        with_room_keeps_limits(slots, instance_id@, room.without_share(share_id@));
        assert forall|n: u64| room_below(room, n) implies #[trigger] room_below(
            room.without_share(share_id@),
            n,
        ) by {}
        with_room_keeps_below(slots, instance_id@, room.without_share(share_id@));
        assert(state::effect_views(r@) == state::ended_one(
            share,
            state::conn_ids(room.peers),
            old(st).builtin(),
        ));
    }
    r
}

/// Every one of these ids is short and names a live share of the room, and there
/// are not too many.
pub open spec fn watchable(room: state::RoomView, ids: Seq<Seq<char>>) -> bool {
    &&& ids.len() <= MAX_WATCHING_IDS
    &&& forall|i: int|
        0 <= i < ids.len() ==> utf8::encode_utf8(#[trigger] ids[i]).len() <= MAX_SHARE_ID_BYTES
    &&& forall|i: int| 0 <= i < ids.len() ==> room.has_share(#[trigger] ids[i])
}

fn all_watchable(room: &Room, ids: &Vec<String>) -> (r: bool)
    ensures
        r == watchable(room@, text::texts(ids@)),
{
    if ids.len() > MAX_WATCHING_IDS {
        return false;
    }
    let ghost names = text::texts(ids@);
    let mut i: usize = 0;
    while i < ids.len()
        invariant
            i <= ids@.len(),
            names == text::texts(ids@),
            forall|k: int|
                0 <= k < i ==> utf8::encode_utf8(#[trigger] names[k]).len() <= MAX_SHARE_ID_BYTES,
            forall|k: int| 0 <= k < i ==> room@.has_share(#[trigger] names[k]),
        decreases ids.len() - i,
    {
        assert(names[i as int] == ids@[i as int]@);
        if ids[i].as_str().as_bytes().len() > MAX_SHARE_ID_BYTES {
            return false;
        }
        if room.share_index(ids[i].as_str()).is_none() {
            return false;
        }
        i += 1;
    }
    true
}

/// The subscriptions that a viewer asks for, each id once: `None` where one of
/// the lists may not be watched.
pub fn validate_watching(room: &Room, video: Vec<String>, audio: Vec<String>) -> (r: Option<
    (Vec<String>, Vec<String>),
>)
    ensures
        r is Some <==> watchable(room@, text::texts(video@)) && watchable(
            room@,
            text::texts(audio@),
        ),
        r matches Some((v, a)) ==> {
            &&& text::texts(v@) == text::firsts(text::texts(video@))
            &&& text::texts(a@) == text::firsts(text::texts(audio@))
            &&& text::texts(v@).to_set() == text::texts(video@).to_set()
            &&& text::texts(a@).to_set() == text::texts(audio@).to_set()
            &&& text::texts(v@).no_duplicates()
            &&& text::texts(a@).no_duplicates()
        },
{
    if all_watchable(room, &video) && all_watchable(room, &audio) {
        Some((text::distinct(video), text::distinct(audio)))
    } else {
        None
    }
}

/// The peers with the subscriptions of one of them replaced.
pub open spec fn with_watching(
    peers: Seq<state::PeerView>,
    conn_id: u64,
    video: Set<Seq<char>>,
    audio: Set<Seq<char>>,
) -> Seq<state::PeerView> {
    match state::peer_at(peers, conn_id) {
        Some(i) => peers.update(
            i,
            state::PeerView { watching_video: video, watching_audio: audio, ..peers[i] },
        ),
        None => peers,
    }
}

/// A viewer may ask for these subscriptions: it is connected to the room, and
/// the room has every share it names.
pub open spec fn may_watch(
    slots: Seq<state::RoomSlotView>,
    instance_id: Seq<char>,
    conn_id: u64,
    video: Seq<Seq<char>>,
    audio: Seq<Seq<char>>,
) -> bool {
    match state::room_of(slots, instance_id) {
        Some(room) => {
            &&& watchable(room, video)
            &&& watchable(room, audio)
            &&& state::peer_at(room.peers, conn_id) is Some
        },
        None => false,
    }
}

/// Replaces a viewer's subscriptions and tells the publishers how many watch
/// them now. `None` where the request is not accepted, and then nothing changes.
pub fn set_watching(
    st: &mut AppState,
    instance_id: &str,
    conn_id: u64,
    video: Vec<String>,
    audio: Vec<String>,
) -> (r: Option<Vec<Delivery>>)
    requires
        rooms_wf(old(st).slots()),
    ensures
        rooms_wf(final(st).slots()),
        final(st).cfg == old(st).cfg,
        final(st).next_conn_id == old(st).next_conn_id,
        final(st).share_codes == old(st).share_codes,
        final(st).rtc_sessions == old(st).rtc_sessions,
        forall|n: u64|
            connected_below(old(st).slots(), n) ==> #[trigger] connected_below(final(st).slots(), n),
        r is Some <==> may_watch(
            old(st).slots(),
            instance_id@,
            conn_id,
            text::texts(video@),
            text::texts(audio@),
        ),
        match r {
            Some(deliveries) => {
                let before = room_or_new(old(st).slots(), instance_id@);
                let room = state::RoomView {
                    peers: with_watching(
                        before.peers,
                        conn_id,
                        text::texts(video@).to_set(),
                        text::texts(audio@).to_set(),
                    ),
                    shares: before.shares,
                };
                &&& final(st).slots() == state::with_room(old(st).slots(), instance_id@, room)
                &&& state::delivery_views(deliveries@) == state::viewer_counts(
                    room,
                    room.shares.len() as int,
                )
            },
            None => final(st).slots() == old(st).slots(),
        },
{
    let ghost slots = st.slots();
    let ghost video_ids = text::texts(video@);
    let ghost audio_ids = text::texts(audio@);
    let i = match st.slot_index(instance_id) {
        Some(i) => i,
        None => {
            return None;
        },
    };
    proof {
        state::slot_at_finds(slots, instance_id@);
        assert(slots[i as int] == st.rooms@[i as int]@);
    }
    let (video, audio) = match validate_watching(&st.rooms[i].room, video, audio) {
        Some(lists) => lists,
        None => {
            return None;
        },
    };
    let j = match st.rooms[i].room.peer_index(conn_id) {
        Some(j) => j,
        None => {
            return None;
        },
    };
    let ghost before = slots[i as int].room;
    let ghost peers = with_watching(
        before.peers,
        conn_id,
        video_ids.to_set(),
        audio_ids.to_set(),
    );
    let ghost room = state::RoomView { peers, shares: before.shares };
    st.rooms[i].room.peers[j].watching_video = video;
    st.rooms[i].room.peers[j].watching_audio = audio;
    proof {
        assert(st.rooms@[i as int].room@.peers == peers);
        assert(st.rooms@[i as int].room@ == room);
        assert(st.slots() == state::with_room(slots, instance_id@, room));
        state::peer_at_finds(before.peers, conn_id);
        assert forall|user: Seq<char>| #[trigger] state::peers_of(room.peers, user)
            <= state::peers_of(before.peers, user) by {
            state::peers_of_update(before.peers, user, j as int, peers[j as int]);
        }
        with_room_keeps_limits(slots, instance_id@, room);
        assert forall|n: u64| room_below(before, n) implies #[trigger] room_below(room, n) by {
            assert(before.peers[j as int].conn_id < n);
        }
        with_room_keeps_below(slots, instance_id@, room);
    }
    Some(st.rooms[i].room.push_viewer_counts())
}

/// What follows from a connection going away, for a room it was in: every share
/// it owned is announced as ended, and unless the room is left empty, the
/// publishers that stay learn how many watch them now.
pub open spec fn departure(room: state::RoomView, conn_id: u64, builtin: bool) -> Seq<
    state::EffectView,
> {
    let left = room.without_connection(conn_id);
    let announced = state::ended(
        state::owned_by(room.shares, conn_id),
        state::conn_ids(left.peers),
        builtin,
    );
    if left.vacant() {
        announced
    } else {
        announced + delivered(state::viewer_counts(left, left.shares.len() as int))
    }
}

/// Some deliveries as things to be done.
pub open spec fn delivered(deliveries: Seq<state::DeliveryView>) -> Seq<state::EffectView> {
    deliveries.map_values(|d: state::DeliveryView| state::EffectView::Deliver(d))
}

proof fn without_connection_shrinks(room: state::RoomView, conn_id: u64)
    requires
        room.wf(),
    ensures
        room.without_connection(conn_id).wf(),
        room.without_connection(conn_id).peers.len() <= room.peers.len(),
        forall|user: Seq<char>| #[trigger]
            state::peers_of(room.without_connection(conn_id).peers, user) <= state::peers_of(
                room.peers,
                user,
            ),
{
    let left = room.without_connection(conn_id);
    state::peer_at_finds(room.peers, conn_id);
    assert forall|user: Seq<char>| #[trigger] state::peers_of(left.peers, user)
        <= state::peers_of(room.peers, user) by {
        if let Some(i) = state::peer_at(room.peers, conn_id) {
            state::peers_of_remove(room.peers, user, i);
        }
    }
    filter_keeps_ids_apart(room.shares, conn_id);
}

proof fn filter_keeps_ids_apart(shares: Seq<state::ShareView>, conn_id: u64)
    requires
        forall|i: int, j: int|
            0 <= i < j < shares.len() ==> #[trigger] shares[i].id != #[trigger] shares[j].id,
    ensures
        ({
            let kept = state::not_owned_by(shares, conn_id);
            forall|i: int, j: int|
                0 <= i < j < kept.len() ==> #[trigger] kept[i].id != #[trigger] kept[j].id
        }),
        forall|k: int|
            0 <= k < state::not_owned_by(shares, conn_id).len() ==> exists|i: int|
                0 <= i < shares.len() && #[trigger] shares[i] == #[trigger] state::not_owned_by(
                    shares,
                    conn_id,
                )[k],
    decreases shares.len(),
{
    reveal(Seq::filter);
    if shares.len() > 0 {
        let rest = shares.drop_last();
        filter_keeps_ids_apart(rest, conn_id);
        let kept = state::not_owned_by(shares, conn_id);
        let old_kept = state::not_owned_by(rest, conn_id);
        assert forall|k: int| 0 <= k < kept.len() implies exists|i: int|
            0 <= i < shares.len() && #[trigger] shares[i] == #[trigger] kept[k] by {
            if k < old_kept.len() {
                let i = choose|i: int| 0 <= i < rest.len() && #[trigger] rest[i] == old_kept[k];
                assert(shares[i] == kept[k]);
            } else {
                assert(shares[shares.len() - 1] == kept[k]);
            }
        }
        assert forall|i: int, j: int| 0 <= i < j < kept.len() implies #[trigger] kept[i].id
            != #[trigger] kept[j].id by {
            if j == old_kept.len() {
                let m = choose|m: int| 0 <= m < rest.len() && #[trigger] rest[m] == old_kept[i];
                assert(shares[m].id != shares[shares.len() - 1].id);
            }
        }
    }
}

/// Clears up after a connection that is gone. Its shares die with it, a room
/// that is left empty is given up, and whatever media it had opened is to be cut.
pub fn cleanup(st: &mut AppState, instance_id: &str, conn_id: u64) -> (r: Vec<Effect>)
    requires
        rooms_wf(old(st).slots()),
    ensures
        rooms_wf(final(st).slots()),
        final(st).cfg == old(st).cfg,
        final(st).next_conn_id == old(st).next_conn_id,
        final(st).share_codes == old(st).share_codes,
        final(st).rtc_sessions == old(st).rtc_sessions,
        forall|n: u64|
            connected_below(old(st).slots(), n) ==> #[trigger] connected_below(final(st).slots(), n),
        match state::room_of(old(st).slots(), instance_id@) {
            Some(room) => {
                let left = room.without_connection(conn_id);
                &&& final(st).slots() == (if left.vacant() {
                    state::without_room(old(st).slots(), instance_id@)
                } else {
                    state::with_room(old(st).slots(), instance_id@, left)
                })
                &&& state::effect_views(r@) == departure(room, conn_id, old(st).builtin()).push(
                    state::EffectView::RevokeConnection { instance_id: instance_id@, conn_id },
                )
            },
            None => {
                &&& final(st).slots() == old(st).slots()
                &&& state::effect_views(r@) == seq![
                    state::EffectView::RevokeConnection { instance_id: instance_id@, conn_id },
                ]
            },
        },
{
    let ghost slots = st.slots();
    let revoke = Effect::RevokeConnection { instance_id: text::owned(instance_id), conn_id };
    let i = match st.slot_index(instance_id) {
        Some(i) => i,
        None => {
            let r = vec![revoke];
            assert(state::effect_views(r@) == seq![revoke@]);
            return r;
        },
    };
    proof {
        state::slot_at_finds(slots, instance_id@);
        assert(slots[i as int] == st.rooms@[i as int]@);
    }
    let ghost room = slots[i as int].room;
    let ghost left = room.without_connection(conn_id);
    let builtin = st.cfg.rtc.backend == crate::config::RtcBackend::Builtin;
    st.rooms[i].room.remove_peer(conn_id);
    let mut r = st.rooms[i].room.end_owned(conn_id, builtin);
    assert(st.rooms@[i as int].room@ == left);
    if st.rooms[i].room.peers.len() == 0 && st.rooms[i].room.shares.len() == 0 {
        st.rooms.remove(i);
        proof {
            assert(st.slots() == state::without_room(slots, instance_id@));
            without_room_keeps_limits(slots, instance_id@);
            without_room_keeps_below(slots, instance_id@);
        }
    } else {
        let counts = st.rooms[i].room.push_viewer_counts();
        r = append_deliveries(r, counts);
        proof {
            assert(st.slots() == state::with_room(slots, instance_id@, left));
            without_connection_shrinks(room, conn_id);
            with_room_keeps_limits(slots, instance_id@, left);
            without_connection_keeps_below(room, conn_id);
            with_room_keeps_below(slots, instance_id@, left);
        }
    }
    let ghost before = r@;
    r.push(revoke);
    assert(state::effect_views(r@) == state::effect_views(before).push(revoke@));
    r
}

/// The effects, and after them the deliveries.
fn append_deliveries(effects: Vec<Effect>, deliveries: Vec<Delivery>) -> (r: Vec<Effect>)
    ensures
        state::effect_views(r@) == state::effect_views(effects@) + delivered(
            state::delivery_views(deliveries@),
        ),
{
    let mut r = effects;
    let ghost first = state::effect_views(r@);
    let ghost all = delivered(state::delivery_views(deliveries@));
    assert(first + all.take(0) == first);
    for d in it: deliveries
        invariant
            it.seq() == deliveries@,
            all == delivered(state::delivery_views(deliveries@)),
            state::effect_views(r@) == first + all.take(it.index()),
    {
        let ghost before = r@;
        let ghost n = d@;
        r.push(Effect::Deliver(d));
        assert(state::effect_views(r@) == state::effect_views(before).push(
            state::EffectView::Deliver(n),
        ));
        assert(all[it.index()] == state::EffectView::Deliver(n));
        assert(all.take(it.index() + 1) == all.take(it.index()).push(all[it.index()]));
    }
    assert(all.take(all.len() as int) == all);
    r
}

/// Admits a session: hands it the next connection id and takes it into its room,
/// or turns it away. The id is used up either way.
pub fn take_in(st: &mut AppState, claims: &Claims) -> (r: Result<(u64, ServerMsg), JoinRefusal>)
    requires
        rooms_wf(old(st).slots()),
    ensures
        rooms_wf(final(st).slots()),
        final(st).cfg == old(st).cfg,
        final(st).share_codes == old(st).share_codes,
        final(st).rtc_sessions == old(st).rtc_sessions,
        connected_below(old(st).slots(), old(st).next_conn_id) && old(st).next_conn_id < u64::MAX
            ==> connected_below(final(st).slots(), final(st).next_conn_id),
        final(st).next_conn_id == (if old(st).next_conn_id == u64::MAX {
            0
        } else {
            old(st).next_conn_id + 1
        }),
        match r {
            Err(e) => {
                &&& refusal(old(st).slots(), claims.sub@, claims.inst@) == Some(e)
                &&& final(st).slots() == old(st).slots()
            },
            Ok((conn_id, hello)) => {
                let room = joined_room(old(st).slots(), *claims, conn_id);
                &&& conn_id == old(st).next_conn_id
                &&& refusal(old(st).slots(), claims.sub@, claims.inst@) is None
                &&& final(st).slots() == state::with_room(old(st).slots(), claims.inst@, room)
                &&& hello@ == (state::ServerMsgView::Hello { conn_id, shares: room.shares })
            },
        },
{
    proof {
        if connected_below(st.slots(), st.next_conn_id) && st.next_conn_id < u64::MAX {
            new_connection_displaces_nobody(st.slots(), *claims, st.next_conn_id);
            below_is_below_more(st.slots(), st.next_conn_id, (st.next_conn_id + 1) as u64);
        }
    }
    let conn_id = st.allocate_conn_id();
    match join(st, claims, conn_id) {
        Ok(hello) => Ok((conn_id, hello)),
        Err(e) => Err(e),
    }
}

/// Every connection in the rooms, and every connection that owns a share there,
/// has an id below this one.
pub open spec fn connected_below(slots: Seq<state::RoomSlotView>, conn_id: u64) -> bool {
    &&& forall|i: int, j: int|
        0 <= i < slots.len() && 0 <= j < slots[i].room.peers.len() ==> (
        #[trigger] slots[i].room.peers[j]).conn_id < conn_id
    &&& forall|i: int, j: int|
        0 <= i < slots.len() && 0 <= j < slots[i].room.shares.len() ==> (
        #[trigger] slots[i].room.shares[j]).conn_id < conn_id
}

proof fn below_is_below_more(slots: Seq<state::RoomSlotView>, n: u64, more: u64)
    requires
        connected_below(slots, n),
        n <= more,
    ensures
        connected_below(slots, more),
{
}

/// The connections of a room and the owners of its shares have ids below this one.
pub open spec fn room_below(room: state::RoomView, n: u64) -> bool {
    &&& forall|j: int| 0 <= j < room.peers.len() ==> (#[trigger] room.peers[j]).conn_id < n
    &&& forall|j: int| 0 <= j < room.shares.len() ==> (#[trigger] room.shares[j]).conn_id < n
}

/// Putting a room with no new ids in its place keeps ids below.
proof fn with_room_keeps_below(
    slots: Seq<state::RoomSlotView>,
    instance_id: Seq<char>,
    room: state::RoomView,
)
    requires
        state::slot_at(slots, instance_id) is Some,
        forall|n: u64|
            room_below(room_or_new(slots, instance_id), n) ==> #[trigger] room_below(room, n),
    ensures
        forall|n: u64|
            connected_below(slots, n) ==> #[trigger] connected_below(
                state::with_room(slots, instance_id, room),
                n,
            ),
{
    state::slot_at_finds(slots, instance_id);
    let i = state::slot_at(slots, instance_id)->0;
    let after = state::with_room(slots, instance_id, room);
    assert forall|n: u64| connected_below(slots, n) implies #[trigger] connected_below(after, n) by {
        assert(room_below(slots[i].room, n)) by {
            assert forall|j: int| 0 <= j < slots[i].room.peers.len() implies (
            #[trigger] slots[i].room.peers[j]).conn_id < n by {}
            assert forall|j: int| 0 <= j < slots[i].room.shares.len() implies (
            #[trigger] slots[i].room.shares[j]).conn_id < n by {}
        }
        assert(room_below(room, n));
        assert forall|k: int, j: int|
            0 <= k < after.len() && 0 <= j < after[k].room.peers.len() implies (
        #[trigger] after[k].room.peers[j]).conn_id < n by {
            if k != i {
                assert(slots[k].room.peers[j].conn_id < n);
            }
        }
        assert forall|k: int, j: int|
            0 <= k < after.len() && 0 <= j < after[k].room.shares.len() implies (
        #[trigger] after[k].room.shares[j]).conn_id < n by {
            if k != i {
                assert(slots[k].room.shares[j].conn_id < n);
            }
        }
    }
}

/// Taking a room away keeps ids below.
proof fn without_room_keeps_below(slots: Seq<state::RoomSlotView>, instance_id: Seq<char>)
    ensures
        forall|n: u64|
            connected_below(slots, n) ==> #[trigger] connected_below(
                state::without_room(slots, instance_id),
                n,
            ),
{
    state::slot_at_finds(slots, instance_id);
    if let Some(i) = state::slot_at(slots, instance_id) {
        let after = slots.remove(i);
        assert forall|n: u64| connected_below(slots, n) implies #[trigger] connected_below(
            after,
            n,
        ) by {
            assert forall|k: int, j: int|
                0 <= k < after.len() && 0 <= j < after[k].room.peers.len() implies (
            #[trigger] after[k].room.peers[j]).conn_id < n by {
                let m = if k < i {
                    k
                } else {
                    k + 1
                };
                assert(slots[m].room.peers[j].conn_id < n);
            }
            assert forall|k: int, j: int|
                0 <= k < after.len() && 0 <= j < after[k].room.shares.len() implies (
            #[trigger] after[k].room.shares[j]).conn_id < n by {
                let m = if k < i {
                    k
                } else {
                    k + 1
                };
                assert(slots[m].room.shares[j].conn_id < n);
            }
        }
    }
}

/// A room from which a connection has gone has no new ids.
proof fn without_connection_keeps_below(room: state::RoomView, conn_id: u64)
    ensures
        forall|n: u64|
            room_below(room, n) ==> #[trigger] room_below(room.without_connection(conn_id), n),
{
    let left = room.without_connection(conn_id);
    state::peer_at_finds(room.peers, conn_id);
    let other = |s: state::ShareView| s.conn_id != conn_id;
    assert(left.shares == room.shares.filter(other));
    assert forall|n: u64| room_below(room, n) implies #[trigger] room_below(left, n) by {
        assert forall|j: int| 0 <= j < left.peers.len() implies (#[trigger] left.peers[j]).conn_id
            < n by {
            if let Some(i) = state::peer_at(room.peers, conn_id) {
                assert(left.peers[j] == room.peers[if j < i {
                    j
                } else {
                    j + 1
                }]);
            }
        }
        assert forall|j: int| 0 <= j < left.shares.len() implies (
        #[trigger] left.shares[j]).conn_id < n by {
            let s = left.shares[j];
            assert(left.shares.contains(s));
            room.shares.lemma_filter_contains_rev(other, s);
            let k = room.shares.index_of(s);
            assert(room.shares[k].conn_id < n);
        }
    }
}

/// A new connection displaces nobody: as long as ids have not started over, it
/// joins behind everyone who is in the room, whose shares stay, and the ids handed
/// out so far stay below the next one.
pub proof fn new_connection_displaces_nobody(
    slots: Seq<state::RoomSlotView>,
    claims: Claims,
    conn_id: u64,
)
    requires
        connected_below(slots, conn_id),
        conn_id < u64::MAX,
    ensures
        ({
            let before = room_or_new(slots, claims.inst@);
            let room = joined_room(slots, claims, conn_id);
            &&& room.peers == before.peers.push(fresh_peer(claims, conn_id))
            &&& room.shares == before.shares
            &&& connected_below(
                state::with_room(slots, claims.inst@, room),
                (conn_id + 1) as u64,
            )
        }),
{
    let inst = claims.inst@;
    let before = room_or_new(slots, inst);
    let room = joined_room(slots, claims, conn_id);
    let after = state::with_room(slots, inst, room);
    state::slot_at_finds(slots, inst);
    state::peer_at_finds(before.peers, conn_id);
    if let Some(i) = state::slot_at(slots, inst) {
        assert(before == slots[i].room);
        if let Some(j) = state::peer_at(before.peers, conn_id) {
            assert(slots[i].room.peers[j].conn_id < conn_id);
        }
    }
    assert(room.peers == before.peers.push(fresh_peer(claims, conn_id)));
    assert forall|i: int, j: int|
        0 <= i < after.len() && 0 <= j < after[i].room.peers.len() implies (
    #[trigger] after[i].room.peers[j]).conn_id < conn_id + 1 by {
        if after[i].room == room {
            if j < before.peers.len() {
                let k = state::slot_at(slots, inst)->0;
                assert(slots[k].room.peers[j].conn_id < conn_id);
            }
        } else {
            assert(slots[i].room.peers[j].conn_id < conn_id);
        }
    }
    assert forall|i: int, j: int|
        0 <= i < after.len() && 0 <= j < after[i].room.shares.len() implies (
    #[trigger] after[i].room.shares[j]).conn_id < conn_id + 1 by {
        if after[i].room == room {
            let k = state::slot_at(slots, inst)->0;
            assert(slots[k].room.shares[j].conn_id < conn_id);
        } else {
            assert(slots[i].room.shares[j].conn_id < conn_id);
        }
    }
}

/// Nothing of a connection is left in its room once it has been cleared up after,
/// and nobody else loses anything: every other peer and every share of another
/// connection stays.
pub proof fn cleanup_takes_exactly_the_connection(room: state::RoomView, conn_id: u64)
    requires
        room.wf(),
    ensures
        ({
            let left = room.without_connection(conn_id);
            &&& forall|p: state::PeerView| #[trigger]
                left.peers.contains(p) <==> room.peers.contains(p) && p.conn_id != conn_id
            &&& forall|s: state::ShareView| #[trigger]
                left.shares.contains(s) <==> room.shares.contains(s) && s.conn_id != conn_id
        }),
{
    let left = room.without_connection(conn_id);
    assert forall|p: state::PeerView| #[trigger] left.peers.contains(p) <==> room.peers.contains(p)
        && p.conn_id != conn_id by {
        state::without_peer_holds(room.peers, conn_id, p);
    }
    assert forall|s: state::ShareView| #[trigger] left.shares.contains(s)
        <==> room.shares.contains(s) && s.conn_id != conn_id by {
        state::shares_come_and_go(room, s.id, conn_id, s);
    }
}

/// A connection that joins and goes away again leaves the rooms as it found them.
pub proof fn leaving_undoes_joining(
    slots: Seq<state::RoomSlotView>,
    claims: Claims,
    conn_id: u64,
)
    requires
        connected_below(slots, conn_id),
        conn_id < u64::MAX,
        state::room_of(slots, claims.inst@) matches Some(room) ==> !room.vacant(),
    ensures
        ({
            let inst = claims.inst@;
            let room = joined_room(slots, claims, conn_id);
            let joined = state::with_room(slots, inst, room);
            let left = room.without_connection(conn_id);
            &&& state::room_of(joined, inst) == Some(room)
            &&& (if left.vacant() {
                state::without_room(joined, inst)
            } else {
                state::with_room(joined, inst, left)
            }) == slots
        }),
{
    let inst = claims.inst@;
    let before = room_or_new(slots, inst);
    let room = joined_room(slots, claims, conn_id);
    let joined = state::with_room(slots, inst, room);
    let left = room.without_connection(conn_id);
    new_connection_displaces_nobody(slots, claims, conn_id);
    state::slot_at_finds(slots, inst);
    state::slot_at_finds(joined, inst);
    state::peer_at_finds(room.peers, conn_id);
    let n = before.peers.len() as int;
    assert(room.peers[n].conn_id == conn_id);
    if let Some(i) = state::slot_at(slots, inst) {
        assert(before == slots[i].room);
        assert forall|j: int| 0 <= j < n implies (#[trigger] room.peers[j]).conn_id != conn_id by {
            assert(slots[i].room.peers[j].conn_id < conn_id);
        }
        assert forall|j: int| 0 <= j < before.shares.len() implies (
        #[trigger] before.shares[j]).conn_id != conn_id by {
            assert(slots[i].room.shares[j].conn_id < conn_id);
        }
    }
    assert(state::peer_at(room.peers, conn_id) == Some(n));
    assert(room.peers.remove(n) == before.peers);
    unowned_shares_stay(before.shares, conn_id);
    assert(left == before);
    match state::slot_at(slots, inst) {
        Some(i) => {
            assert(joined[i].instance_id == inst);
            assert(state::slot_at(joined, inst) == Some(i)) by {
                let at = state::slot_at(joined, inst)->0;
                if at < i {
                    assert(slots[at].instance_id == joined[at].instance_id);
                }
            }
            assert(state::with_room(joined, inst, left) == slots);
        },
        None => {
            let last = slots.len() as int;
            assert(joined[last].instance_id == inst);
            assert(state::slot_at(joined, inst) == Some(last)) by {
                let at = state::slot_at(joined, inst)->0;
                if at < last {
                    assert(slots[at].instance_id == joined[at].instance_id);
                }
            }
            assert(joined.remove(last) == slots);
        },
    }
}

proof fn unowned_shares_stay(shares: Seq<state::ShareView>, conn_id: u64)
    requires
        forall|j: int| 0 <= j < shares.len() ==> (#[trigger] shares[j]).conn_id != conn_id,
    ensures
        state::not_owned_by(shares, conn_id) == shares,
    decreases shares.len(),
{
    reveal(Seq::filter);
    if shares.len() > 0 {
        let rest = shares.drop_last();
        assert forall|j: int| 0 <= j < rest.len() implies (#[trigger] rest[j]).conn_id
            != conn_id by {
            assert(shares[j].conn_id != conn_id);
        }
        unowned_shares_stay(rest, conn_id);
        assert(shares[shares.len() - 1].conn_id != conn_id);
        assert(rest.push(shares.last()) == shares);
    }
}

/// Only the connection that registered a share may stop it, and only by its id in
/// its own room.
pub proof fn only_owner_stops_share(
    slots: Seq<state::RoomSlotView>,
    instance_id: Seq<char>,
    conn_id: u64,
    share_id: Seq<char>,
)
    ensures
        own_share(slots, instance_id, conn_id, share_id) matches Some(share) ==> share.conn_id
            == conn_id && share.id == share_id && (state::room_of(slots, instance_id) matches Some(
            room,
        ) && room.shares.contains(share)),
{
    if let Some(room) = state::room_of(slots, instance_id) {
        state::share_at_finds(room.shares, share_id);
    }
}

/// A connection is let in as long as the server holds fewer than 512, the room fewer than 128
/// and the user fewer than 8. Otherwise the limit that is reached is named: the server's
/// before the room's, and the room's before the user's.
pub proof fn connection_limits_are_counted(
    slots: Seq<state::RoomSlotView>,
    user_id: Seq<char>,
    instance_id: Seq<char>,
)
    ensures
        ({
            let server_full = state::total_connections(slots) >= 512;
            let room_full = state::room_of(slots, instance_id) is Some && state::room_of(
                slots,
                instance_id,
            )->0.peers.len() >= 128;
            let user_full = state::user_connections(slots, user_id) >= 8;
            let refused = refusal(slots, user_id, instance_id);
            &&& refused is None <==> !server_full && !room_full && !user_full
            &&& refused == Some(JoinRefusal::ServerFull) <==> server_full
            &&& refused == Some(JoinRefusal::ActivityFull) <==> !server_full && room_full
            &&& refused == Some(JoinRefusal::UserFull) <==> !server_full && !room_full && user_full
        }),
{
}

/// A session that joins stands in the room of its instance under the connection id that it was
/// given, as the user and in the role that its claims name, and watches nothing yet. Everyone
/// who was there under another id stays, the shares stay, and so do all other rooms.
pub proof fn joining_adds_the_session(
    slots: Seq<state::RoomSlotView>,
    claims: Claims,
    conn_id: u64,
    other: state::PeerView,
    elsewhere: Seq<char>,
)
    requires
        rooms_wf(slots),
    ensures
        ({
            let inst = claims.inst@;
            let room = joined_room(slots, claims, conn_id);
            let after = state::with_room(slots, inst, room);
            let shares = match state::room_of(slots, inst) {
                Some(before) => before.shares,
                None => Seq::empty(),
            };
            &&& state::room_of(after, inst) == Some(room)
            &&& elsewhere != inst ==> state::room_of(after, elsewhere) == state::room_of(
                slots,
                elsewhere,
            )
            &&& room.shares == shares
            &&& exists|p: state::PeerView|
                {
                    &&& #[trigger] room.peers.contains(p)
                    &&& p.conn_id == conn_id
                    &&& p.user_id == claims.sub@
                    &&& p.role == claims.role
                    &&& p.watching_video.is_empty()
                    &&& p.watching_audio.is_empty()
                }
            &&& other.conn_id != conn_id ==> (room.peers.contains(other) <==> state::room_of(
                slots,
                inst,
            ) is Some && state::room_of(slots, inst)->0.peers.contains(other))
        }),
{
    let inst = claims.inst@;
    let before = room_or_new(slots, inst);
    let peer = fresh_peer(claims, conn_id);
    state::slot_at_finds(slots, inst);
    state::rooms_stand_by_instance(slots, inst, joined_room(slots, claims, conn_id), inst);
    state::rooms_stand_by_instance(slots, inst, joined_room(slots, claims, conn_id), elsewhere);
    state::peers_come_and_go(before, peer, other);
    state::peers_come_and_go(before, peer, peer);
    assert(joined_room(slots, claims, conn_id).peers.contains(peer));
}

/// A connection may stop a share exactly where that share is in its own room and its own, and
/// then it is that share which ends.
pub proof fn owners_stop_their_shares(
    slots: Seq<state::RoomSlotView>,
    instance_id: Seq<char>,
    conn_id: u64,
    share_id: Seq<char>,
    share: state::ShareView,
)
    requires
        rooms_wf(slots),
    ensures
        own_share(slots, instance_id, conn_id, share_id) == Some(share) <==> {
            &&& state::room_of(slots, instance_id) is Some
            &&& state::room_of(slots, instance_id)->0.shares.contains(share)
            &&& share.id == share_id
            &&& share.conn_id == conn_id
        },
{
    state::slot_at_finds(slots, instance_id);
    if let Some(room) = state::room_of(slots, instance_id) {
        let at: int = state::slot_at(slots, instance_id)->0;
        assert(slots[at].room.wf());
        state::share_at_finds(room.shares, share_id);
        if room.shares.contains(share) && share.id == share_id {
            let k: int = room.shares.index_of(share);
            let i: int = state::share_at(room.shares, share_id)->0;
            assert(room.shares[k].id == room.shares[i].id);
            if k < i {
                assert(room.shares[k].id != share_id);
            }
            if i < k {
                assert(room.shares[i].id != room.shares[k].id);
            }
        }
    }
}

/// A list of shares may be watched exactly where it names 128 at most, each by 64 bytes at most,
/// and each that it names is live in the room.
pub proof fn only_live_shares_may_be_watched(room: state::RoomView, ids: Seq<Seq<char>>)
    ensures
        watchable(room, ids) <==> {
            &&& ids.len() <= 128
            &&& forall|k: int|
                0 <= k < ids.len() ==> {
                    &&& utf8::encode_utf8(#[trigger] ids[k]).len() <= 64
                    &&& exists|i: int|
                        0 <= i < room.shares.len() && (#[trigger] room.shares[i]).id == ids[k]
                }
        },
{
    assert forall|k: int| 0 <= k < ids.len() implies room.has_share(#[trigger] ids[k])
        == exists|i: int|
        0 <= i < room.shares.len() && (#[trigger] room.shares[i]).id == ids[k] by {
        state::share_at_finds(room.shares, ids[k]);
    }
}

/// A viewer's request is accepted exactly where its room is there, it is connected to it, and
/// both of its lists may be watched there.
pub proof fn only_connected_viewers_may_watch(
    slots: Seq<state::RoomSlotView>,
    instance_id: Seq<char>,
    conn_id: u64,
    video: Seq<Seq<char>>,
    audio: Seq<Seq<char>>,
)
    ensures
        match state::room_of(slots, instance_id) {
            Some(room) => may_watch(slots, instance_id, conn_id, video, audio) <==> {
                &&& watchable(room, video)
                &&& watchable(room, audio)
                &&& exists|j: int|
                    0 <= j < room.peers.len() && (#[trigger] room.peers[j]).conn_id == conn_id
            },
            None => !may_watch(slots, instance_id, conn_id, video, audio),
        },
{
    if let Some(room) = state::room_of(slots, instance_id) {
        state::peer_at_finds(room.peers, conn_id);
    }
}

/// A viewer's subscriptions are replaced whole, and by them alone the viewer changes. Nobody
/// else's change.
pub proof fn watching_replaces_one_viewers_lists(
    room: state::RoomView,
    conn_id: u64,
    video: Set<Seq<char>>,
    audio: Set<Seq<char>>,
    i: int,
)
    requires
        room.wf(),
        0 <= i < room.peers.len(),
    ensures
        ({
            let after = with_watching(room.peers, conn_id, video, audio);
            &&& after.len() == room.peers.len()
            &&& room.peers[i].conn_id != conn_id ==> after[i] == room.peers[i]
            &&& room.peers[i].conn_id == conn_id ==> {
                &&& after[i].watching_video == video
                &&& after[i].watching_audio == audio
                &&& after[i].conn_id == conn_id
                &&& after[i].user_id == room.peers[i].user_id
                &&& after[i].role == room.peers[i].role
            }
        }),
{
    state::peer_at_finds(room.peers, conn_id);
    if let Some(j) = state::peer_at(room.peers, conn_id) {
        if room.peers[i].conn_id == conn_id && i != j {
            if j < i {
                assert(room.peers[j].conn_id != room.peers[i].conn_id);
            }
        }
    }
}

/// When a connection goes, the end of each of its shares is announced to everyone who stays,
/// and where the built-in relay carries the media, the session of each is closed. Unless the
/// room is given up, every count for those who stay is delivered after that, once. Nothing
/// else follows.
pub proof fn departures_are_announced(
    room: state::RoomView,
    conn_id: u64,
    builtin: bool,
    effect: state::EffectView,
)
    requires
        room.wf(),
    ensures
        ({
            let left = room.without_connection(conn_id);
            let announced = state::ended(
                state::owned_by(room.shares, conn_id),
                state::conn_ids(left.peers),
                builtin,
            );
            let counts = state::viewer_counts(left, left.shares.len() as int);
            &&& announced.is_prefix_of(departure(room, conn_id, builtin))
            &&& departure(room, conn_id, builtin).len() <= announced.len() + counts.len()
        }),
        ({
            let left = room.without_connection(conn_id);
            let counts = state::viewer_counts(left, left.shares.len() as int);
            departure(room, conn_id, builtin).contains(effect) <==> {
                ||| exists|i: int|
                    {
                        &&& 0 <= i < room.shares.len()
                        &&& (#[trigger] room.shares[i]).conn_id == conn_id
                        &&& {
                            ||| builtin && effect == state::EffectView::CloseSession(
                                room.shares[i].publisher_session_id,
                            )
                            ||| effect == state::EffectView::Deliver(
                                state::DeliveryView {
                                    to: state::conn_ids(left.peers),
                                    msg: state::ServerMsgView::ShareEnded {
                                        share_id: room.shares[i].id,
                                    },
                                },
                            )
                        }
                    }
                ||| (left.peers.len() > 0 || left.shares.len() > 0) && exists|k: int|
                    0 <= k < counts.len() && effect == state::EffectView::Deliver(
                        #[trigger] counts[k],
                    )
            }
        }),
{
    let left = room.without_connection(conn_id);
    let to = state::conn_ids(left.peers);
    let own = |s: state::ShareView| s.conn_id == conn_id;
    let owned = state::owned_by(room.shares, conn_id);
    assert(owned == room.shares.filter(own));
    let announced = state::ended(owned, to, builtin);
    let counts = state::viewer_counts(left, left.shares.len() as int);
    let all = departure(room, conn_id, builtin);
    let step: int = if builtin {
        2
    } else {
        1
    };
    state::ended_shares_are_announced(owned, to, builtin);
    let tail = if left.vacant() {
        Seq::empty()
    } else {
        delivered(counts)
    };
    assert(all == announced + tail);
    if all.contains(effect) {
        let n: int = all.index_of(effect);
        if n < announced.len() {
            let k: int = n / step;
            assert(0 <= k < owned.len() && (n == step * k || (builtin && n == step * k + 1)));
            assert(announced[n] == effect);
            let share = owned[k];
            assert(owned.contains(share));
            room.shares.lemma_filter_contains_rev(own, share);
            room.shares.lemma_filter_pred(own, k);
            let i: int = room.shares.index_of(share);
            assert(room.shares[i].conn_id == conn_id);
        } else {
            let k: int = n - announced.len();
            assert(tail[k] == effect);
            assert(effect == state::EffectView::Deliver(counts[k]));
        }
    }
    if exists|i: int|
        {
            &&& 0 <= i < room.shares.len()
            &&& (#[trigger] room.shares[i]).conn_id == conn_id
            &&& {
                ||| builtin && effect == state::EffectView::CloseSession(
                    room.shares[i].publisher_session_id,
                )
                ||| effect == state::EffectView::Deliver(
                    state::DeliveryView {
                        to,
                        msg: state::ServerMsgView::ShareEnded { share_id: room.shares[i].id },
                    },
                )
            }
        } {
        let i: int = choose|i: int|
            {
                &&& 0 <= i < room.shares.len()
                &&& (#[trigger] room.shares[i]).conn_id == conn_id
                &&& {
                    ||| builtin && effect == state::EffectView::CloseSession(
                        room.shares[i].publisher_session_id,
                    )
                    ||| effect == state::EffectView::Deliver(
                        state::DeliveryView {
                            to,
                            msg: state::ServerMsgView::ShareEnded { share_id: room.shares[i].id },
                        },
                    )
                }
            };
        room.shares.lemma_filter_contains(own, i);
        let k: int = owned.index_of(room.shares[i]);
        assert(owned[k] == room.shares[i]);
        assert(all[step * k] == announced[step * k]);
        if builtin {
            assert(all[step * k + 1] == announced[step * k + 1]);
        }
    }
    if (left.peers.len() > 0 || left.shares.len() > 0) && exists|k: int|
        0 <= k < counts.len() && effect == state::EffectView::Deliver(#[trigger] counts[k]) {
        let k: int = choose|k: int|
            0 <= k < counts.len() && effect == state::EffectView::Deliver(#[trigger] counts[k]);
        assert(tail[k] == effect);
        assert(all[announced.len() + k] == effect);
    }
}

} // verus!
