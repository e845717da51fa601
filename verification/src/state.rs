//! The shared state of the server: rooms, their peers and their shares.

use vstd::prelude::*;

use crate::auth::{Claims, Role, SESSION_TTL_SECS};
use crate::config::{Config, RtcBackend};
use crate::search;
use crate::table;
use crate::text;

verus! {

/// An active screen share.
pub struct Share {
    pub id: String,
    pub user_id: String,
    pub username: String,
    pub avatar: Option<String>,
    pub has_audio: bool,
    pub started_at: u64,
    /// The publisher's RTC session, needed to pull the share and to tear it down.
    pub publisher_session_id: String,
    /// The connection that owns this share, which ends when it drops.
    pub conn_id: u64,
}

/// A share as plain texts and numbers.
pub struct ShareView {
    pub id: Seq<char>,
    pub user_id: Seq<char>,
    pub username: Seq<char>,
    pub avatar: Option<Seq<char>>,
    pub has_audio: bool,
    pub started_at: u64,
    pub publisher_session_id: Seq<char>,
    pub conn_id: u64,
}

impl View for Share {
    type V = ShareView;

    open spec fn view(&self) -> ShareView {
        ShareView {
            id: self.id@,
            user_id: self.user_id@,
            username: self.username@,
            avatar: text::opt_text(self.avatar),
            has_audio: self.has_audio,
            started_at: self.started_at,
            publisher_session_id: self.publisher_session_id@,
            conn_id: self.conn_id,
        }
    }
}

impl Clone for Share {
    fn clone(&self) -> (r: Self)
        ensures
            r == *self,
    {
        Share {
            id: self.id.clone(),
            user_id: self.user_id.clone(),
            username: self.username.clone(),
            avatar: text::copy_opt(&self.avatar),
            has_audio: self.has_audio,
            started_at: self.started_at,
            publisher_session_id: self.publisher_session_id.clone(),
            conn_id: self.conn_id,
        }
    }
}

/// A connected websocket peer, viewer or publisher.
pub struct Peer {
    pub conn_id: u64,
    pub user_id: String,
    pub role: Role,
    /// The shares whose video this peer watches, each listed once.
    pub watching_video: Vec<String>,
    /// The shares whose audio this peer listens to, each listed once.
    pub watching_audio: Vec<String>,
}

/// A peer as plain values, its subscriptions as sets of share ids.
pub struct PeerView {
    pub conn_id: u64,
    pub user_id: Seq<char>,
    pub role: Role,
    pub watching_video: Set<Seq<char>>,
    pub watching_audio: Set<Seq<char>>,
}

impl View for Peer {
    type V = PeerView;

    open spec fn view(&self) -> PeerView {
        PeerView {
            conn_id: self.conn_id,
            user_id: self.user_id@,
            role: self.role,
            watching_video: text::texts(self.watching_video@).to_set(),
            watching_audio: text::texts(self.watching_audio@).to_set(),
        }
    }
}

/// One activity instance: who is connected and what is shared.
pub struct Room {
    /// Connected peers, in the order in which they joined.
    pub peers: Vec<Peer>,
    /// Active shares, in the order in which they started.
    pub shares: Vec<Share>,
}

/// A room's peers and shares.
#[verifier::ext_equal]
pub struct RoomView {
    pub peers: Seq<PeerView>,
    pub shares: Seq<ShareView>,
}

/// The views of some peers.
pub open spec fn peer_views(peers: Seq<Peer>) -> Seq<PeerView> {
    peers.map_values(|p: Peer| p@)
}

/// The views of some shares.
pub open spec fn share_views(shares: Seq<Share>) -> Seq<ShareView> {
    shares.map_values(|s: Share| s@)
}

impl View for Room {
    type V = RoomView;

    open spec fn view(&self) -> RoomView {
        RoomView { peers: peer_views(self.peers@), shares: share_views(self.shares@) }
    }
}

/// The first peer with this connection id.
pub open spec fn peer_at(peers: Seq<PeerView>, conn_id: u64) -> Option<int> {
    search::first_at(peers, |p: PeerView| p.conn_id == conn_id)
}

/// The first share with this id.
pub open spec fn share_at(shares: Seq<ShareView>, id: Seq<char>) -> Option<int> {
    search::first_at(shares, |s: ShareView| s.id == id)
}

/// The peers with `peer` added: in place of the one with its connection id, or
/// behind the others.
pub open spec fn with_peer(peers: Seq<PeerView>, peer: PeerView) -> Seq<PeerView> {
    match peer_at(peers, peer.conn_id) {
        Some(i) => peers.update(i, peer),
        None => peers.push(peer),
    }
}

/// The peers without the one with this connection id.
pub open spec fn without_peer(peers: Seq<PeerView>, conn_id: u64) -> Seq<PeerView> {
    match peer_at(peers, conn_id) {
        Some(i) => peers.remove(i),
        None => peers,
    }
}

/// The connection ids of some peers.
pub open spec fn conn_ids(peers: Seq<PeerView>) -> Seq<u64> {
    peers.map_values(|p: PeerView| p.conn_id)
}

/// How many of the peers belong to this user.
pub open spec fn peers_of(peers: Seq<PeerView>, user_id: Seq<char>) -> nat
    decreases peers.len(),
{
    if peers.len() == 0 {
        0
    } else {
        peers_of(peers.drop_last(), user_id) + if peers.last().user_id == user_id {
            1nat
        } else {
            0
        }
    }
}

/// How many of the peers watch the video of a share.
pub open spec fn video_watchers(peers: Seq<PeerView>, share_id: Seq<char>) -> nat
    decreases peers.len(),
{
    if peers.len() == 0 {
        0
    } else {
        video_watchers(peers.drop_last(), share_id) + if peers.last().watching_video.contains(
            share_id,
        ) {
            1nat
        } else {
            0
        }
    }
}

/// How many of the peers listen to the audio of a share.
pub open spec fn audio_watchers(peers: Seq<PeerView>, share_id: Seq<char>) -> nat
    decreases peers.len(),
{
    if peers.len() == 0 {
        0
    } else {
        audio_watchers(peers.drop_last(), share_id) + if peers.last().watching_audio.contains(
            share_id,
        ) {
            1nat
        } else {
            0
        }
    }
}

/// The shares that this connection owns.
pub open spec fn owned_by(shares: Seq<ShareView>, conn_id: u64) -> Seq<ShareView> {
    shares.filter(|s: ShareView| s.conn_id == conn_id)
}

/// The shares that other connections own.
pub open spec fn not_owned_by(shares: Seq<ShareView>, conn_id: u64) -> Seq<ShareView> {
    shares.filter(|s: ShareView| s.conn_id != conn_id)
}

impl RoomView {
    /// No two peers have the same connection id, and no two shares the same id.
    pub open spec fn wf(self) -> bool {
        &&& forall|i: int, j: int|
            0 <= i < j < self.peers.len() ==> #[trigger] self.peers[i].conn_id
                != #[trigger] self.peers[j].conn_id
        &&& forall|i: int, j: int|
            0 <= i < j < self.shares.len() ==> #[trigger] self.shares[i].id
                != #[trigger] self.shares[j].id
    }

    /// A share with this id is live.
    pub open spec fn has_share(self, id: Seq<char>) -> bool {
        share_at(self.shares, id) is Some
    }

    /// The room without the share with this id.
    pub open spec fn without_share(self, id: Seq<char>) -> RoomView {
        match share_at(self.shares, id) {
            Some(i) => RoomView { shares: self.shares.remove(i), ..self },
            None => self,
        }
    }

    /// The room once a connection is gone, and with it the shares it owned.
    pub open spec fn without_connection(self, conn_id: u64) -> RoomView {
        RoomView {
            peers: without_peer(self.peers, conn_id),
            shares: not_owned_by(self.shares, conn_id),
        }
    }

    /// Nobody is connected and nothing is shared.
    pub open spec fn vacant(self) -> bool {
        self.peers.len() == 0 && self.shares.len() == 0
    }
}

/// What the server tells its peers.
pub enum ServerMsg {
    /// Sent once to a peer right after websocket auth succeeds.
    Hello { conn_id: u64, shares: Vec<Share> },
    ShareStarted { share: Share },
    ShareEnded { share_id: String },
    /// Tells a publisher how many peers watch and listen to its share.
    ViewerCounts { share_id: String, video: usize, audio: usize },
}

/// A message as plain values.
#[verifier::ext_equal]
pub enum ServerMsgView {
    Hello { conn_id: u64, shares: Seq<ShareView> },
    ShareStarted { share: ShareView },
    ShareEnded { share_id: Seq<char> },
    ViewerCounts { share_id: Seq<char>, video: nat, audio: nat },
}

impl View for ServerMsg {
    type V = ServerMsgView;

    open spec fn view(&self) -> ServerMsgView {
        match *self {
            ServerMsg::Hello { conn_id, shares } => ServerMsgView::Hello {
                conn_id,
                shares: share_views(shares@),
            },
            ServerMsg::ShareStarted { share } => ServerMsgView::ShareStarted { share: share@ },
            ServerMsg::ShareEnded { share_id } => ServerMsgView::ShareEnded { share_id: share_id@ },
            ServerMsg::ViewerCounts { share_id, video, audio } => ServerMsgView::ViewerCounts {
                share_id: share_id@,
                video: video as nat,
                audio: audio as nat,
            },
        }
    }
}

/// A message and the connections it goes to.
pub struct Delivery {
    pub to: Vec<u64>,
    pub msg: ServerMsg,
}

/// A delivery as plain values.
#[verifier::ext_equal]
pub struct DeliveryView {
    pub to: Seq<u64>,
    pub msg: ServerMsgView,
}

impl View for Delivery {
    type V = DeliveryView;

    open spec fn view(&self) -> DeliveryView {
        DeliveryView { to: self.to@, msg: self.msg@ }
    }
}

/// Something the program has to do after the state has changed.
pub enum Effect {
    /// Send a message.
    Deliver(Delivery),
    /// Close a session of the built-in relay.
    CloseSession(String),
    /// Cut the media of everything that a connection had opened.
    RevokeConnection { instance_id: String, conn_id: u64 },
}

/// An effect as plain values.
#[verifier::ext_equal]
pub enum EffectView {
    Deliver(DeliveryView),
    CloseSession(Seq<char>),
    RevokeConnection { instance_id: Seq<char>, conn_id: u64 },
}

impl View for Effect {
    type V = EffectView;

    open spec fn view(&self) -> EffectView {
        match *self {
            Effect::Deliver(d) => EffectView::Deliver(d@),
            Effect::CloseSession(id) => EffectView::CloseSession(id@),
            Effect::RevokeConnection { instance_id, conn_id } => EffectView::RevokeConnection {
                instance_id: instance_id@,
                conn_id,
            },
        }
    }
}

/// The views of some effects.
pub open spec fn effect_views(effects: Seq<Effect>) -> Seq<EffectView> {
    effects.map_values(|e: Effect| e@)
}

/// The views of some deliveries.
pub open spec fn delivery_views(deliveries: Seq<Delivery>) -> Seq<DeliveryView> {
    deliveries.map_values(|d: Delivery| d@)
}

/// What a publisher is told of each of its shares, for the first `n` shares of a
/// room: how many peers watch and how many listen. A share whose publisher is
/// not connected is passed over.
pub open spec fn viewer_counts(room: RoomView, n: int) -> Seq<DeliveryView>
    decreases n,
{
    if n <= 0 {
        Seq::empty()
    } else {
        let share = room.shares[n - 1];
        if peer_at(room.peers, share.conn_id) is Some {
            viewer_counts(room, n - 1).push(
                DeliveryView {
                    to: seq![share.conn_id],
                    msg: ServerMsgView::ViewerCounts {
                        share_id: share.id,
                        video: video_watchers(room.peers, share.id),
                        audio: audio_watchers(room.peers, share.id),
                    },
                },
            )
        } else {
            viewer_counts(room, n - 1)
        }
    }
}

/// What has to be done when one share has ended: tell these connections and,
/// where the built-in relay carries the media, close the publisher's session.
pub open spec fn ended_one(share: ShareView, to: Seq<u64>, builtin: bool) -> Seq<EffectView> {
    let notice = EffectView::Deliver(
        DeliveryView { to, msg: ServerMsgView::ShareEnded { share_id: share.id } },
    );
    if builtin {
        seq![notice, EffectView::CloseSession(share.publisher_session_id)]
    } else {
        seq![notice]
    }
}

/// What has to be done when some shares have ended, one after the other.
pub open spec fn ended(shares: Seq<ShareView>, to: Seq<u64>, builtin: bool) -> Seq<EffectView>
    decreases shares.len(),
{
    if shares.len() == 0 {
        Seq::empty()
    } else {
        ended(shares.drop_last(), to, builtin) + ended_one(shares.last(), to, builtin)
    }
}

/// `peer_at` finds a peer with the connection id exactly where there is one, and
/// then the first.
pub proof fn peer_at_finds(peers: Seq<PeerView>, conn_id: u64)
    ensures
        match peer_at(peers, conn_id) {
            Some(i) => 0 <= i < peers.len() && peers[i].conn_id == conn_id && forall|j: int|
                0 <= j < i ==> (#[trigger] peers[j]).conn_id != conn_id,
            None => forall|j: int|
                0 <= j < peers.len() ==> (#[trigger] peers[j]).conn_id != conn_id,
        },
{
    search::first_at_finds(peers, |p: PeerView| p.conn_id == conn_id);
}

/// `share_at` finds a share with the id exactly where there is one, and then the
/// first.
pub proof fn share_at_finds(shares: Seq<ShareView>, id: Seq<char>)
    ensures
        match share_at(shares, id) {
            Some(i) => 0 <= i < shares.len() && shares[i].id == id && forall|j: int|
                0 <= j < i ==> (#[trigger] shares[j]).id != id,
            None => forall|j: int| 0 <= j < shares.len() ==> (#[trigger] shares[j]).id != id,
        },
{
    search::first_at_finds(shares, |s: ShareView| s.id == id);
}

impl Room {
    /// A room with nobody in it.
    pub fn new() -> (r: Room)
        ensures
            r@ == (RoomView { peers: Seq::empty(), shares: Seq::empty() }),
    {
        Room { peers: Vec::new(), shares: Vec::new() }
    }

    /// Takes a peer in.
    pub fn add_peer(&mut self, peer: Peer)
        ensures
            final(self)@ == (RoomView {
                peers: with_peer(old(self)@.peers, peer@),
                shares: old(self)@.shares,
            }),
    {
        match self.peer_index(peer.conn_id) {
            Some(i) => {
                self.peers.set(i, peer);
                assert(peer_views(self.peers@) == peer_views(old(self).peers@).update(
                    i as int,
                    peer@,
                ));
            },
            None => {
                self.peers.push(peer);
                assert(peer_views(self.peers@) == peer_views(old(self).peers@).push(peer@));
            },
        }
    }

    /// Lets a peer go.
    pub fn remove_peer(&mut self, conn_id: u64)
        ensures
            final(self)@ == (RoomView {
                peers: without_peer(old(self)@.peers, conn_id),
                shares: old(self)@.shares,
            }),
            final(self).shares == old(self).shares,
    {
        if let Some(i) = self.peer_index(conn_id) {
            self.peers.remove(i);
            assert(peer_views(self.peers@) == peer_views(old(self).peers@).remove(i as int));
        }
    }

    /// The shares of the room.
    pub fn list_shares(&self) -> (r: Vec<Share>)
        ensures
            share_views(r@) == self@.shares,
    {
        let mut r: Vec<Share> = Vec::new();
        let mut i: usize = 0;
        while i < self.shares.len()
            invariant
                i <= self.shares@.len(),
                r@ == self.shares@.take(i as int),
            decreases self.shares.len() - i,
        {
            r.push(self.shares[i].clone());
            i += 1;
        }
        assert(r@ == self.shares@);
        r
    }

    /// Where the peer with this connection id stands.
    pub fn peer_index(&self, conn_id: u64) -> (r: Option<usize>)
        ensures
            match r {
                Some(i) => peer_at(self@.peers, conn_id) == Some(i as int),
                None => peer_at(self@.peers, conn_id) is None,
            },
            r matches Some(i) ==> i < self.peers@.len(),
    {
        let ghost peers = self@.peers;
        let mut i: usize = 0;
        while i < self.peers.len()
            invariant
                i <= self.peers@.len(),
                peers == self@.peers,
                forall|j: int| 0 <= j < i ==> (#[trigger] peers[j]).conn_id != conn_id,
            decreases self.peers.len() - i,
        {
            assert(peers[i as int] == self.peers@[i as int]@);
            if self.peers[i].conn_id == conn_id {
                proof {
                    peer_at_finds(peers, conn_id);
                }
                return Some(i);
            }
            i += 1;
        }
        proof {
            peer_at_finds(peers, conn_id);
        }
        None
    }

    /// Where the share with this id stands.
    pub fn share_index(&self, share_id: &str) -> (r: Option<usize>)
        ensures
            match r {
                Some(i) => share_at(self@.shares, share_id@) == Some(i as int),
                None => share_at(self@.shares, share_id@) is None,
            },
            r matches Some(i) ==> i < self.shares@.len() && self.shares@[i as int].id@ == share_id@,
    {
        let ghost shares = self@.shares;
        let mut i: usize = 0;
        while i < self.shares.len()
            invariant
                i <= self.shares@.len(),
                shares == self@.shares,
                forall|j: int| 0 <= j < i ==> (#[trigger] shares[j]).id != share_id@,
            decreases self.shares.len() - i,
        {
            assert(shares[i as int] == self.shares@[i as int]@);
            if text::same_text(self.shares[i].id.as_str(), share_id) {
                proof {
                    share_at_finds(shares, share_id@);
                }
                return Some(i);
            }
            i += 1;
        }
        proof {
            share_at_finds(shares, share_id@);
        }
        None
    }

    /// `msg`, addressed to everyone in the room.
    pub fn broadcast(&self, msg: ServerMsg) -> (r: Delivery)
        ensures
            r@ == (DeliveryView { to: conn_ids(self@.peers), msg: msg@ }),
    {
        let mut to: Vec<u64> = Vec::new();
        let mut i: usize = 0;
        while i < self.peers.len()
            invariant
                i <= self.peers@.len(),
                to@ == conn_ids(self@.peers).take(i as int),
            decreases self.peers.len() - i,
        {
            to.push(self.peers[i].conn_id);
            i += 1;
        }
        assert(to@ == conn_ids(self@.peers));
        Delivery { to, msg }
    }

    /// Removes the share at a position and tells everyone.
    fn end_share_at(&mut self, i: usize) -> (r: (Share, Delivery))
        requires
            i < old(self).shares@.len(),
        ensures
            r.0 == old(self).shares@[i as int],
            r.1@ == (DeliveryView {
                to: conn_ids(old(self)@.peers),
                msg: ServerMsgView::ShareEnded { share_id: old(self)@.shares[i as int].id },
            }),
            final(self).peers == old(self).peers,
            final(self).shares@ == old(self).shares@.remove(i as int),
            final(self)@ == (RoomView {
                peers: old(self)@.peers,
                shares: old(self)@.shares.remove(i as int),
            }),
    {
        let share = self.shares.remove(i);
        let d = self.broadcast(ServerMsg::ShareEnded { share_id: share.id.clone() });
        assert(share_views(self.shares@) == share_views(old(self).shares@).remove(i as int));
        (share, d)
    }

    /// Ends every share that a connection owns. Each is announced to everyone in
    /// the room, and where the built-in relay carries the media, its session is
    /// to be closed.
    pub fn end_owned(&mut self, conn_id: u64, builtin: bool) -> (r: Vec<Effect>)
        ensures
            final(self)@ == (RoomView {
                peers: old(self)@.peers,
                shares: not_owned_by(old(self)@.shares, conn_id),
            }),
            final(self).peers == old(self).peers,
            effect_views(r@) == ended(
                owned_by(old(self)@.shares, conn_id),
                conn_ids(old(self)@.peers),
                builtin,
            ),
    {
        let ghost shares = self@.shares;
        let ghost to = conn_ids(self@.peers);
        let ghost own = |s: ShareView| s.conn_id == conn_id;
        let ghost other = |s: ShareView| s.conn_id != conn_id;
        let ghost mut done: int = 0;
        let mut r: Vec<Effect> = Vec::new();
        let mut i: usize = 0;
        assert(shares.take(0).filter(other) + shares.skip(0) == shares) by {
            reveal(Seq::filter);
            assert(shares.take(0) == Seq::<ShareView>::empty());
        }
        assert(shares.take(0).filter(own) == Seq::<ShareView>::empty()) by {
            reveal(Seq::filter);
        }
        while i < self.shares.len()
            invariant
                0 <= done <= shares.len(),
                own == (|s: ShareView| s.conn_id == conn_id),
                other == (|s: ShareView| s.conn_id != conn_id),
                to == conn_ids(self@.peers),
                self.peers == old(self).peers,
                i == shares.take(done).filter(other).len(),
                self@.shares == shares.take(done).filter(other) + shares.skip(done),
                effect_views(r@) == ended(shares.take(done).filter(own), to, builtin),
            decreases shares.len() - done,
        {
            let ghost kept = shares.take(done).filter(other);
            proof {
                let next = shares.take(done + 1);
                assert(self@.shares.len() == self.shares@.len());
                assert(next == shares.take(done).push(shares[done]));
                shares.take(done).lemma_filter_push(shares[done], own);
                shares.take(done).lemma_filter_push(shares[done], other);
                assert(self@.shares[i as int] == shares[done]);
                assert(self.shares@[i as int]@ == self@.shares[i as int]);
            }
            if self.shares[i].conn_id == conn_id {
                let (share, notice) = self.end_share_at(i);
                let ghost before = r@;
                let ghost n = notice@;
                r.push(Effect::Deliver(notice));
                if builtin {
                    r.push(Effect::CloseSession(share.publisher_session_id));
                }
                proof {
                    let had = shares.take(done).filter(own);
                    assert(had.push(shares[done]).drop_last() == had);
                    assert(effect_views(r@) == effect_views(before) + ended_one(
                        shares[done],
                        to,
                        builtin,
                    ));
                    assert(self@.shares == kept + shares.skip(done + 1));
                    done = done + 1;
                }
            } else {
                i += 1;
                proof {
                    assert(self@.shares == kept.push(shares[done]) + shares.skip(done + 1));
                    done = done + 1;
                }
            }
        }
        assert(shares.skip(done).len() == 0);
        assert(shares.take(done) == shares);
        assert(self@.shares == shares.filter(other));
        r
    }

    /// Removes a share and tells everyone. Returns the removed share, so that
    /// the caller can release what it held, and the notice.
    pub fn end_share(&mut self, share_id: &str) -> (r: Option<(Share, Delivery)>)
        ensures
            match share_at(old(self)@.shares, share_id@) {
                Some(i) => {
                    &&& r matches Some((share, notice))
                    &&& share@ == old(self)@.shares[i]
                    &&& notice@ == (DeliveryView {
                        to: conn_ids(old(self)@.peers),
                        msg: ServerMsgView::ShareEnded { share_id: share_id@ },
                    })
                    &&& final(self)@ == old(self)@.without_share(share_id@)
                },
                None => r is None && *final(self) == *old(self),
            },
            old(self)@.wf() ==> final(self)@.wf(),
    {
        match self.share_index(share_id) {
            Some(i) => Some(self.end_share_at(i)),
            None => None,
        }
    }

    /// How many peers watch the video of a share.
    fn count_video(&self, share_id: &str) -> (r: usize)
        ensures
            r == video_watchers(self@.peers, share_id@),
            r <= self.peers@.len(),
    {
        let ghost peers = self@.peers;
        let mut n: usize = 0;
        let mut i: usize = 0;
        assert(peers.take(0) == Seq::<PeerView>::empty());
        while i < self.peers.len()
            invariant
                i <= self.peers.len(),
                peers == self@.peers,
                n <= i,
                n == video_watchers(peers.take(i as int), share_id@),
            decreases self.peers.len() - i,
        {
            assert(peers.take(i + 1).drop_last() == peers.take(i as int));
            if text::lists(self.peers[i].watching_video.as_slice(), share_id) {
                n += 1;
            }
            i += 1;
        }
        assert(peers.take(i as int) == peers);
        n
    }

    /// How many peers listen to the audio of a share.
    fn count_audio(&self, share_id: &str) -> (r: usize)
        ensures
            r == audio_watchers(self@.peers, share_id@),
            r <= self.peers@.len(),
    {
        let ghost peers = self@.peers;
        let mut n: usize = 0;
        let mut i: usize = 0;
        assert(peers.take(0) == Seq::<PeerView>::empty());
        while i < self.peers.len()
            invariant
                i <= self.peers.len(),
                peers == self@.peers,
                n <= i,
                n == audio_watchers(peers.take(i as int), share_id@),
            decreases self.peers.len() - i,
        {
            assert(peers.take(i + 1).drop_last() == peers.take(i as int));
            if text::lists(self.peers[i].watching_audio.as_slice(), share_id) {
                n += 1;
            }
            i += 1;
        }
        assert(peers.take(i as int) == peers);
        n
    }

    /// What each publisher is told: how many peers watch and listen to its
    /// shares.
    pub fn push_viewer_counts(&self) -> (r: Vec<Delivery>)
        ensures
            delivery_views(r@) == viewer_counts(self@, self@.shares.len() as int),
    {
        let ghost room = self@;
        let mut r: Vec<Delivery> = Vec::new();
        let mut i: usize = 0;
        while i < self.shares.len()
            invariant
                i <= self.shares@.len(),
                room == self@,
                delivery_views(r@) == viewer_counts(room, i as int),
            decreases self.shares.len() - i,
        {
            let share = &self.shares[i];
            assert(room.shares[i as int] == share@);
            if self.peer_index(share.conn_id).is_some() {
                let video = self.count_video(share.id.as_str());
                let audio = self.count_audio(share.id.as_str());
                let d = Delivery {
                    to: vec![share.conn_id],
                    msg: ServerMsg::ViewerCounts { share_id: share.id.clone(), video, audio },
                };
                let ghost before = r@;
                r.push(d);
                assert(delivery_views(r@) == delivery_views(before).push(d@));
                assert(d@.to == seq![share.conn_id]);
            }
            i += 1;
        }
        r
    }
}

/// The room of one activity instance.
pub struct RoomSlot {
    pub instance_id: String,
    pub room: Room,
}

/// A room and the instance it belongs to.
#[verifier::ext_equal]
pub struct RoomSlotView {
    pub instance_id: Seq<char>,
    pub room: RoomView,
}

impl View for RoomSlot {
    type V = RoomSlotView;

    open spec fn view(&self) -> RoomSlotView {
        RoomSlotView { instance_id: self.instance_id@, room: self.room@ }
    }
}

/// The first slot of this instance.
pub open spec fn slot_at(slots: Seq<RoomSlotView>, instance_id: Seq<char>) -> Option<int> {
    search::first_at(slots, |s: RoomSlotView| s.instance_id == instance_id)
}

/// The room of an instance, if it has one.
pub open spec fn room_of(slots: Seq<RoomSlotView>, instance_id: Seq<char>) -> Option<RoomView> {
    match slot_at(slots, instance_id) {
        Some(i) => Some(slots[i].room),
        None => None,
    }
}

/// The slots with `room` as the room of an instance.
pub open spec fn with_room(
    slots: Seq<RoomSlotView>,
    instance_id: Seq<char>,
    room: RoomView,
) -> Seq<RoomSlotView> {
    match slot_at(slots, instance_id) {
        Some(i) => slots.update(i, RoomSlotView { instance_id, room }),
        None => slots.push(RoomSlotView { instance_id, room }),
    }
}

/// The slots without the room of an instance.
pub open spec fn without_room(slots: Seq<RoomSlotView>, instance_id: Seq<char>) -> Seq<
    RoomSlotView,
> {
    match slot_at(slots, instance_id) {
        Some(i) => slots.remove(i),
        None => slots,
    }
}

/// The sum over all rooms of what `f` gives for each.
pub open spec fn room_sum(slots: Seq<RoomSlotView>, f: spec_fn(RoomView) -> nat) -> nat
    decreases slots.len(),
{
    if slots.len() == 0 {
        0
    } else {
        room_sum(slots.drop_last(), f) + f(slots.last().room)
    }
}

/// How many connections a room holds.
pub open spec fn all_peers() -> spec_fn(RoomView) -> nat {
    |r: RoomView| r.peers.len()
}

/// How many connections of a user a room holds.
pub open spec fn user_peers(user_id: Seq<char>) -> spec_fn(RoomView) -> nat {
    |r: RoomView| peers_of(r.peers, user_id)
}

/// How many connections all rooms hold together.
pub open spec fn total_connections(slots: Seq<RoomSlotView>) -> nat {
    room_sum(slots, all_peers())
}

/// How many connections a user holds in all rooms together.
pub open spec fn user_connections(slots: Seq<RoomSlotView>, user_id: Seq<char>) -> nat {
    room_sum(slots, user_peers(user_id))
}

/// `slot_at` finds a slot of the instance exactly where there is one, and then
/// the first.
pub proof fn slot_at_finds(slots: Seq<RoomSlotView>, instance_id: Seq<char>)
    ensures
        match slot_at(slots, instance_id) {
            Some(i) => 0 <= i < slots.len() && slots[i].instance_id == instance_id && forall|
                j: int,
            |
                0 <= j < i ==> (#[trigger] slots[j]).instance_id != instance_id,
            None => forall|j: int|
                0 <= j < slots.len() ==> (#[trigger] slots[j]).instance_id != instance_id,
        },
{
    search::first_at_finds(slots, |s: RoomSlotView| s.instance_id == instance_id);
}

pub(crate) proof fn room_sum_update(
    slots: Seq<RoomSlotView>,
    f: spec_fn(RoomView) -> nat,
    i: int,
    slot: RoomSlotView,
)
    requires
        0 <= i < slots.len(),
    ensures
        room_sum(slots.update(i, slot), f) + f(slots[i].room) == room_sum(slots, f) + f(slot.room),
    decreases slots.len(),
{
    let changed = slots.update(i, slot);
    if i == slots.len() - 1 {
        assert(changed.drop_last() == slots.drop_last());
    } else {
        room_sum_update(slots.drop_last(), f, i, slot);
        assert(changed.drop_last() == slots.drop_last().update(i, slot));
    }
}

pub(crate) proof fn room_sum_remove(
    slots: Seq<RoomSlotView>,
    f: spec_fn(RoomView) -> nat,
    i: int,
)
    requires
        0 <= i < slots.len(),
    ensures
        room_sum(slots.remove(i), f) + f(slots[i].room) == room_sum(slots, f),
    decreases slots.len(),
{
    if i == slots.len() - 1 {
        assert(slots.remove(i) == slots.drop_last());
    } else {
        room_sum_remove(slots.drop_last(), f, i);
        assert(slots.remove(i).drop_last() == slots.drop_last().remove(i));
    }
}

pub(crate) proof fn room_sum_push(
    slots: Seq<RoomSlotView>,
    f: spec_fn(RoomView) -> nat,
    slot: RoomSlotView,
)
    ensures
        room_sum(slots.push(slot), f) == room_sum(slots, f) + f(slot.room),
{
    assert(slots.push(slot).drop_last() == slots);
}

pub(crate) proof fn room_sum_prefix(
    slots: Seq<RoomSlotView>,
    f: spec_fn(RoomView) -> nat,
    n: int,
)
    requires
        0 <= n <= slots.len(),
    ensures
        room_sum(slots.take(n), f) <= room_sum(slots, f),
    decreases slots.len(),
{
    if n == slots.len() {
        assert(slots.take(n) == slots);
    } else {
        room_sum_prefix(slots.drop_last(), f, n);
        assert(slots.drop_last().take(n) == slots.take(n));
    }
}

/// One where the peer belongs to the user, else none.
pub open spec fn belongs(peer: PeerView, user_id: Seq<char>) -> nat {
    if peer.user_id == user_id {
        1
    } else {
        0
    }
}

pub(crate) proof fn peers_of_update(
    peers: Seq<PeerView>,
    user_id: Seq<char>,
    i: int,
    peer: PeerView,
)
    requires
        0 <= i < peers.len(),
    ensures
        peers_of(peers.update(i, peer), user_id) + belongs(peers[i], user_id) == peers_of(
            peers,
            user_id,
        ) + belongs(peer, user_id),
    decreases peers.len(),
{
    let changed = peers.update(i, peer);
    if i == peers.len() - 1 {
        assert(changed.drop_last() == peers.drop_last());
    } else {
        peers_of_update(peers.drop_last(), user_id, i, peer);
        assert(changed.drop_last() == peers.drop_last().update(i, peer));
    }
}

pub(crate) proof fn peers_of_remove(peers: Seq<PeerView>, user_id: Seq<char>, i: int)
    requires
        0 <= i < peers.len(),
    ensures
        peers_of(peers.remove(i), user_id) + belongs(peers[i], user_id) == peers_of(
            peers,
            user_id,
        ),
    decreases peers.len(),
{
    if i == peers.len() - 1 {
        assert(peers.remove(i) == peers.drop_last());
    } else {
        peers_of_remove(peers.drop_last(), user_id, i);
        assert(peers.remove(i).drop_last() == peers.drop_last().remove(i));
    }
}

/// A one-time code minted in the activity, to be claimed by the share page.
pub struct PendingCode {
    pub claims: Claims,
    pub expires_at: u64,
}

/// Whom an RTC session was opened for.
pub struct RtcSessionOwner {
    pub user_id: String,
    pub instance_id: String,
    /// Unix seconds. Forgotten once older than a session token can be.
    pub created_at: u64,
}

/// For how long a share code may be claimed, in seconds.
pub const SHARE_CODE_TTL_SECS: u64 = 300;

/// Everything that the connections of the server share.
pub struct AppState {
    pub cfg: Config,
    pub rooms: Vec<RoomSlot>,
    /// One-time codes minted in the activity, claimed by the share page.
    pub share_codes: Vec<(String, PendingCode)>,
    /// Whom each RTC session was opened for, so that nobody can publish to or pull
    /// into a foreign one. Applies to both backends.
    pub rtc_sessions: Vec<(String, RtcSessionOwner)>,
    pub next_conn_id: u64,
}

/// An RTC session was opened for this user in this instance.
pub open spec fn opened_for(
    sessions: Seq<(Seq<char>, RtcSessionOwner)>,
    session_id: Seq<char>,
    user_id: Seq<char>,
    instance_id: Seq<char>,
) -> bool {
    match table::value_at(sessions, session_id) {
        Some(owner) => owner.user_id@ == user_id && owner.instance_id@ == instance_id,
        None => false,
    }
}

/// An owner that is not yet to be forgotten.
pub open spec fn remembered(now: u64) -> spec_fn((Seq<char>, RtcSessionOwner)) -> bool {
    |e: (Seq<char>, RtcSessionOwner)| e.1.created_at + SESSION_TTL_SECS >= now
}

impl AppState {
    /// The rooms, each with its instance.
    pub open spec fn slots(self) -> Seq<RoomSlotView> {
        self.rooms@.map_values(|s: RoomSlot| s@)
    }

    /// The share codes that nobody has claimed, each with what it stands for.
    pub open spec fn codes(self) -> Seq<(Seq<char>, PendingCode)> {
        table::entries_of(self.share_codes@)
    }

    /// The RTC sessions, each with whom it was opened for.
    pub open spec fn owners(self) -> Seq<(Seq<char>, RtcSessionOwner)> {
        table::entries_of(self.rtc_sessions@)
    }

    /// No share code and no RTC session is entered twice.
    pub open spec fn keys_distinct(self) -> bool {
        table::distinct_keys(self.codes()) && table::distinct_keys(self.owners())
    }

    /// The built-in relay carries the media.
    pub open spec fn builtin(self) -> bool {
        self.cfg.rtc.backend == RtcBackend::Builtin
    }

    /// The state of a server that nobody has connected to.
    pub fn new(cfg: Config) -> (r: AppState)
        ensures
            r.cfg == cfg,
            r.slots() == Seq::<RoomSlotView>::empty(),
            crate::ws::rooms_wf(r.slots()),
            crate::ws::connected_below(r.slots(), r.next_conn_id),
            r.codes() == Seq::<(Seq<char>, PendingCode)>::empty(),
            r.owners() == Seq::<(Seq<char>, RtcSessionOwner)>::empty(),
            r.keys_distinct(),
            r.next_conn_id == 1,
    {
        AppState {
            cfg,
            rooms: Vec::new(),
            share_codes: Vec::new(),
            rtc_sessions: Vec::new(),
            next_conn_id: 1,
        }
    }

    /// A connection id: one more than the one handed out before, starting over
    /// at zero after the largest.
    pub fn allocate_conn_id(&mut self) -> (r: u64)
        ensures
            r == old(self).next_conn_id,
            final(self).next_conn_id == (if old(self).next_conn_id == u64::MAX {
                0
            } else {
                old(self).next_conn_id + 1
            }),
            final(self).cfg == old(self).cfg,
            final(self).rooms == old(self).rooms,
            final(self).share_codes == old(self).share_codes,
            final(self).rtc_sessions == old(self).rtc_sessions,
    {
        let id = self.next_conn_id;
        self.next_conn_id = id.wrapping_add(1);
        id
    }

    /// What has to be released when a share has ended: the publisher's session
    /// where the built-in relay holds it. Cloudflare collects its own.
    pub fn reap_share(&self, share: Option<Share>) -> (r: Option<String>)
        ensures
            match r {
                Some(id) => self.builtin() && (share matches Some(s) && id == s.publisher_session_id),
                None => !self.builtin() || share is None,
            },
            r is Some <==> self.cfg.rtc.backend is Builtin && share is Some,
    {
        match share {
            Some(share) => if self.cfg.rtc.backend == RtcBackend::Builtin {
                Some(share.publisher_session_id)
            } else {
                None
            },
            None => None,
        }
    }

    /// Where the room of an instance stands.
    pub fn slot_index(&self, instance_id: &str) -> (r: Option<usize>)
        ensures
            match r {
                Some(i) => slot_at(self.slots(), instance_id@) == Some(i as int),
                None => slot_at(self.slots(), instance_id@) is None,
            },
            r matches Some(i) ==> i < self.rooms@.len() && self.rooms@[i as int].instance_id@
                == instance_id@,
    {
        let ghost slots = self.slots();
        let mut i: usize = 0;
        while i < self.rooms.len()
            invariant
                i <= self.rooms@.len(),
                slots == self.slots(),
                forall|j: int| 0 <= j < i ==> (#[trigger] slots[j]).instance_id != instance_id@,
            decreases self.rooms.len() - i,
        {
            assert(slots[i as int] == self.rooms@[i as int]@);
            if text::same_text(self.rooms[i].instance_id.as_str(), instance_id) {
                proof {
                    slot_at_finds(slots, instance_id@);
                }
                return Some(i);
            }
            i += 1;
        }
        proof {
            slot_at_finds(slots, instance_id@);
        }
        None
    }

    /// Lets a share code be claimed, for as long as such codes live.
    pub fn add_share_code(&mut self, code: String, claims: Claims, now: u64)
        requires
            now + SHARE_CODE_TTL_SECS <= u64::MAX,
        ensures
            final(self).codes() == table::with_entry(
                old(self).codes(),
                code@,
                PendingCode { claims, expires_at: (now + SHARE_CODE_TTL_SECS) as u64 },
            ),
            old(self).keys_distinct() ==> final(self).keys_distinct(),
            old(self).keys_distinct() ==> (table::value_at(final(self).codes(), code@) matches Some(
                pending,
            ) && pending.claims == claims && pending.expires_at == now + 300),
            final(self).cfg == old(self).cfg,
            final(self).rooms == old(self).rooms,
            final(self).rtc_sessions == old(self).rtc_sessions,
            final(self).next_conn_id == old(self).next_conn_id,
    {
        let pending = PendingCode { claims, expires_at: now + SHARE_CODE_TTL_SECS };
        proof {
            if self.keys_distinct() {
                table::with_entry_finds(self.codes(), code@, pending, code@);
            }
        }
        table::insert(&mut self.share_codes, code, pending);
    }

    /// Claims a share code: what it stands for, unless it is unknown or has
    /// expired. Either way it cannot be claimed again.
    pub fn claim_share_code(&mut self, code: &str, now: u64) -> (r: Option<Claims>)
        ensures
            r == (match table::value_at(old(self).codes(), code@) {
                Some(pending) => if pending.expires_at < now {
                    None
                } else {
                    Some(pending.claims)
                },
                None => None,
            }),
            final(self).codes() == table::without_entry(old(self).codes(), code@),
            old(self).keys_distinct() ==> final(self).keys_distinct(),
            final(self).cfg == old(self).cfg,
            final(self).rooms == old(self).rooms,
            final(self).rtc_sessions == old(self).rtc_sessions,
            final(self).next_conn_id == old(self).next_conn_id,
    {
        proof {
            if self.keys_distinct() {
                table::without_entry_forgets(self.codes(), code@, code@);
            }
        }
        match table::remove(&mut self.share_codes, code) {
            Some(pending) => if pending.expires_at < now {
                None
            } else {
                Some(pending.claims)
            },
            None => None,
        }
    }

    /// Remembers whom an RTC session was opened for.
    pub fn own_rtc_session(&mut self, session_id: String, owner: RtcSessionOwner)
        ensures
            final(self).owners() == table::with_entry(old(self).owners(), session_id@, owner),
            old(self).keys_distinct() ==> final(self).keys_distinct(),
            final(self).cfg == old(self).cfg,
            final(self).rooms == old(self).rooms,
            final(self).share_codes == old(self).share_codes,
            final(self).next_conn_id == old(self).next_conn_id,
    {
        proof {
            if self.keys_distinct() {
                table::with_entry_finds(self.owners(), session_id@, owner, session_id@);
            }
        }
        table::insert(&mut self.rtc_sessions, session_id, owner);
    }

    /// Whether a user may publish to or pull into an RTC session: only where it
    /// was opened for them, in this instance.
    pub fn owns_rtc_session(&self, session_id: &str, user_id: &str, instance_id: &str) -> (r: bool)
        ensures
            r == opened_for(self.owners(), session_id@, user_id@, instance_id@),
            match table::value_at(self.owners(), session_id@) {
                Some(owner) => r <==> owner.user_id@ == user_id@ && owner.instance_id@
                    == instance_id@,
                None => !r,
            },
    {
        match table::index_of(&self.rtc_sessions, session_id) {
            Some(i) => {
                let owner = &self.rtc_sessions[i].1;
                assert(self.owners()[i as int].1 == *owner);
                text::same_text(owner.user_id.as_str(), user_id) && text::same_text(
                    owner.instance_id.as_str(),
                    instance_id,
                )
            },
            None => false,
        }
    }

    /// Forgets whom RTC sessions were opened for that are older than a session
    /// token can be.
    pub fn prune_rtc_sessions(&mut self, now: u64)
        ensures
            final(self).owners() == old(self).owners().filter(remembered(now)),
            old(self).keys_distinct() ==> final(self).keys_distinct(),
            final(self).cfg == old(self).cfg,
            final(self).rooms == old(self).rooms,
            final(self).share_codes == old(self).share_codes,
            final(self).next_conn_id == old(self).next_conn_id,
    {
        let ghost all = self.owners();
        let ghost keep = remembered(now);
        let ghost mut done: int = 0;
        let mut i: usize = 0;
        assert(all.take(0).filter(keep) + all.skip(0) == all) by {
            reveal(Seq::filter);
            assert(all.take(0) == Seq::<(Seq<char>, RtcSessionOwner)>::empty());
        }
        while i < self.rtc_sessions.len()
            invariant
                0 <= done <= all.len(),
                keep == remembered(now),
                i == all.take(done).filter(keep).len(),
                self.owners() == all.take(done).filter(keep) + all.skip(done),
                self.cfg == old(self).cfg,
                self.rooms == old(self).rooms,
                self.share_codes == old(self).share_codes,
                self.next_conn_id == old(self).next_conn_id,
            decreases all.len() - done,
        {
            let ghost kept = all.take(done).filter(keep);
            let ghost then = self.owners();
            proof {
                assert(self.owners().len() == self.rtc_sessions@.len());
                assert(all.take(done + 1) == all.take(done).push(all[done]));
                all.take(done).lemma_filter_push(all[done], keep);
                assert(then[i as int] == all[done]);
                assert(self.rtc_sessions@[i as int].1 == then[i as int].1);
            }
            let created_at = self.rtc_sessions[i].1.created_at;
            if created_at < now && now - created_at > SESSION_TTL_SECS {
                self.rtc_sessions.remove(i);
                proof {
                    assert(self.owners() == then.remove(i as int));
                    assert(self.owners() == kept + all.skip(done + 1));
                    done = done + 1;
                }
            } else {
                i += 1;
                proof {
                    assert(self.owners() == kept.push(all[done]) + all.skip(done + 1));
                    done = done + 1;
                }
            }
        }
        assert(all.skip(done).len() == 0);
        assert(all.take(done) == all);
        assert(self.owners() == all.filter(keep));
        proof {
            if old(self).keys_distinct() {
                table::filter_keeps_keys_distinct(all, keep);
            }
        }
    }
}

/// A share code that is let be claimed at one time stands for its claims up to the
/// end of its life and for nothing later.
pub proof fn share_code_expires(
    codes: Seq<(Seq<char>, PendingCode)>,
    code: Seq<char>,
    claims: Claims,
    minted: u64,
    claimed: u64,
)
    requires
        table::distinct_keys(codes),
        minted + SHARE_CODE_TTL_SECS <= u64::MAX,
    ensures
        ({
            let pending = PendingCode {
                claims,
                expires_at: (minted + SHARE_CODE_TTL_SECS) as u64,
            };
            let found = table::value_at(table::with_entry(codes, code, pending), code);
            &&& found == Some(pending)
            &&& pending.expires_at < claimed <==> claimed - minted > SHARE_CODE_TTL_SECS
        }),
{
    let pending = PendingCode { claims, expires_at: (minted + SHARE_CODE_TTL_SECS) as u64 };
    table::with_entry_finds(codes, code, pending, code);
}

/// Share codes are single-use: once one has been claimed, there is nothing left to
/// claim under it, and every other code stands as it did.
pub proof fn share_code_is_single_use(
    codes: Seq<(Seq<char>, PendingCode)>,
    code: Seq<char>,
    other: Seq<char>,
)
    requires
        table::distinct_keys(codes),
    ensures
        table::value_at(table::without_entry(codes, code), code) is None,
        other != code ==> table::value_at(table::without_entry(codes, code), other)
            == table::value_at(codes, other),
        table::distinct_keys(table::without_entry(codes, code)),
{
    table::without_entry_forgets(codes, code, other);
}

/// A session that was opened for one user in one instance is that user's there and
/// nobody else's: no other user may touch it, and neither may the same user from
/// another instance.
pub proof fn foreign_session_is_out_of_reach(
    sessions: Seq<(Seq<char>, RtcSessionOwner)>,
    session_id: Seq<char>,
    owner: RtcSessionOwner,
    user_id: Seq<char>,
    instance_id: Seq<char>,
)
    requires
        table::distinct_keys(sessions),
    ensures
        opened_for(
            table::with_entry(sessions, session_id, owner),
            session_id,
            user_id,
            instance_id,
        ) <==> owner.user_id@ == user_id && owner.instance_id@ == instance_id,
{
    table::with_entry_finds(sessions, session_id, owner, session_id);
}

proof fn watchers_are_filtered(peers: Seq<PeerView>, share_id: Seq<char>, user_id: Seq<char>)
    ensures
        video_watchers(peers, share_id) == peers.filter(
            |p: PeerView| p.watching_video.contains(share_id),
        ).len(),
        audio_watchers(peers, share_id) == peers.filter(
            |p: PeerView| p.watching_audio.contains(share_id),
        ).len(),
        peers_of(peers, user_id) == peers.filter(|p: PeerView| p.user_id == user_id).len(),
    decreases peers.len(),
{
    reveal(Seq::filter);
    if peers.len() > 0 {
        watchers_are_filtered(peers.drop_last(), share_id, user_id);
    }
}

/// Everyone is counted once: whoever watches the video of a share, whoever listens to its
/// audio, and whoever belongs to a user. Addressed to everyone, a message goes to each
/// connection of the room.
pub proof fn everyone_is_counted_once(peers: Seq<PeerView>, share_id: Seq<char>, user_id: Seq<char>)
    ensures
        video_watchers(peers, share_id) == peers.filter(
            |p: PeerView| p.watching_video.contains(share_id),
        ).len(),
        audio_watchers(peers, share_id) == peers.filter(
            |p: PeerView| p.watching_audio.contains(share_id),
        ).len(),
        peers_of(peers, user_id) == peers.filter(|p: PeerView| p.user_id == user_id).len(),
        conn_ids(peers).len() == peers.len(),
        forall|i: int| 0 <= i < peers.len() ==> #[trigger] conn_ids(peers)[i] == peers[i].conn_id,
{
    watchers_are_filtered(peers, share_id, user_id);
}

proof fn with_peer_holds(peers: Seq<PeerView>, peer: PeerView, other: PeerView)
    requires
        forall|i: int, j: int|
            0 <= i < j < peers.len() ==> #[trigger] peers[i].conn_id != #[trigger] peers[j].conn_id,
    ensures
        with_peer(peers, peer).contains(other) <==> other == peer || (peers.contains(other)
            && other.conn_id != peer.conn_id),
{
    let after = with_peer(peers, peer);
    peer_at_finds(peers, peer.conn_id);
    match peer_at(peers, peer.conn_id) {
        Some(i) => {
            assert(after[i] == peer);
            if after.contains(other) && other != peer {
                let k: int = after.index_of(other);
                assert(k != i);
                assert(peers[k] == other);
                assert(peers[k].conn_id != peers[i].conn_id);
            }
            if peers.contains(other) && other.conn_id != peer.conn_id {
                let k: int = peers.index_of(other);
                assert(after[k] == other);
            }
        },
        None => {
            assert(after[peers.len() as int] == peer);
            if after.contains(other) && other != peer {
                let k: int = after.index_of(other);
                assert(peers[k] == other);
                assert(peers[k].conn_id != peer.conn_id);
            }
            if peers.contains(other) {
                let k: int = peers.index_of(other);
                assert(after[k] == other);
            }
        },
    }
}

pub(crate) proof fn without_peer_holds(peers: Seq<PeerView>, conn_id: u64, other: PeerView)
    requires
        forall|i: int, j: int|
            0 <= i < j < peers.len() ==> #[trigger] peers[i].conn_id != #[trigger] peers[j].conn_id,
    ensures
        without_peer(peers, conn_id).contains(other) <==> peers.contains(other) && other.conn_id
            != conn_id,
{
    let left = without_peer(peers, conn_id);
    peer_at_finds(peers, conn_id);
    match peer_at(peers, conn_id) {
        Some(i) => {
            if left.contains(other) {
                let j: int = left.index_of(other);
                let k: int = if j < i {
                    j
                } else {
                    j + 1
                };
                assert(peers[k] == other);
                assert(peers[k].conn_id != peers[i].conn_id);
            }
            if peers.contains(other) && other.conn_id != conn_id {
                let k: int = peers.index_of(other);
                let j: int = if k < i {
                    k
                } else {
                    k - 1
                };
                assert(left[j] == other);
            }
        },
        None => {
            if peers.contains(other) {
                let k: int = peers.index_of(other);
                assert(peers[k].conn_id != conn_id);
            }
        },
    }
}

/// A peer that comes in is in the room, as it came, and takes nobody's place but that of its
/// own connection. One that goes is gone, and everyone else stays.
pub proof fn peers_come_and_go(room: RoomView, peer: PeerView, other: PeerView)
    requires
        room.wf(),
    ensures
        with_peer(room.peers, peer).contains(other) <==> other == peer || (room.peers.contains(
            other,
        ) && other.conn_id != peer.conn_id),
        without_peer(room.peers, peer.conn_id).contains(other) <==> room.peers.contains(other)
            && other.conn_id != peer.conn_id,
{
    with_peer_holds(room.peers, peer, other);
    without_peer_holds(room.peers, peer.conn_id, other);
}

/// A share that ends is gone from its room, and every other one stays. A room has exactly the
/// shares in it, a connection owns exactly those that carry its id, and a room is vacant where
/// it holds neither peers nor shares.
pub proof fn shares_come_and_go(room: RoomView, id: Seq<char>, conn_id: u64, other: ShareView)
    requires
        room.wf(),
    ensures
        room.has_share(id) <==> exists|i: int|
            0 <= i < room.shares.len() && (#[trigger] room.shares[i]).id == id,
        room.without_share(id).shares.contains(other) <==> room.shares.contains(other) && other.id
            != id,
        room.without_share(id).peers == room.peers,
        owned_by(room.shares, conn_id).contains(other) <==> room.shares.contains(other)
            && other.conn_id == conn_id,
        not_owned_by(room.shares, conn_id).contains(other) <==> room.shares.contains(other)
            && other.conn_id != conn_id,
        room.vacant() <==> room.peers == Seq::<PeerView>::empty() && room.shares == Seq::<
            ShareView,
        >::empty(),
{
    let shares = room.shares;
    let left = room.without_share(id).shares;
    share_at_finds(shares, id);
    match share_at(shares, id) {
        Some(i) => {
            if left.contains(other) {
                let j: int = left.index_of(other);
                let k: int = if j < i {
                    j
                } else {
                    j + 1
                };
                assert(shares[k] == other && shares[k].id != shares[i].id);
            }
            if shares.contains(other) && other.id != id {
                let k: int = shares.index_of(other);
                let j: int = if k < i {
                    k
                } else {
                    k - 1
                };
                assert(left[j] == other);
            }
        },
        None => {
            if shares.contains(other) {
                let k: int = shares.index_of(other);
                assert(shares[k].id != id);
            }
        },
    }
    if room.vacant() {
        assert(room.peers == Seq::<PeerView>::empty());
        assert(room.shares == Seq::<ShareView>::empty());
    }
    let own = |s: ShareView| s.conn_id == conn_id;
    let foreign = |s: ShareView| s.conn_id != conn_id;
    assert(owned_by(shares, conn_id) == shares.filter(own));
    assert(not_owned_by(shares, conn_id) == shares.filter(foreign));
    if shares.contains(other) {
        let k: int = shares.index_of(other);
        if own(other) {
            shares.lemma_filter_contains(own, k);
        } else {
            shares.lemma_filter_contains(foreign, k);
        }
    }
    if shares.filter(own).contains(other) {
        shares.lemma_filter_contains_rev(own, other);
        shares.lemma_filter_pred(own, shares.filter(own).index_of(other));
    }
    if shares.filter(foreign).contains(other) {
        shares.lemma_filter_contains_rev(foreign, other);
        shares.lemma_filter_pred(foreign, shares.filter(foreign).index_of(other));
    }
}

/// Every publisher that is connected learns how many watch and how many listen to each of its
/// shares, once for each share, in the order of the shares. Nobody else is told.
pub proof fn publishers_learn_their_counts(room: RoomView, n: int)
    requires
        0 <= n <= room.shares.len(),
    ensures
        ({
            let told = room.shares.take(n).filter(
                |s: ShareView| conn_ids(room.peers).contains(s.conn_id),
            );
            let counts = viewer_counts(room, n);
            &&& counts.len() == told.len()
            &&& forall|k: int|
                0 <= k < told.len() ==> {
                    &&& (#[trigger] counts[k]).to == seq![told[k].conn_id]
                    &&& counts[k].msg matches ServerMsgView::ViewerCounts { share_id, video, audio }
                    &&& share_id == told[k].id
                    &&& video == video_watchers(room.peers, told[k].id)
                    &&& audio == audio_watchers(room.peers, told[k].id)
                }
        }),
    decreases n,
{
    let here = |s: ShareView| conn_ids(room.peers).contains(s.conn_id);
    if n == 0 {
        reveal(Seq::filter);
        assert(room.shares.take(0).filter(here) == Seq::<ShareView>::empty());
    } else {
        publishers_learn_their_counts(room, n - 1);
        let share = room.shares[n - 1];
        let rest = room.shares.take(n - 1);
        let told = rest.filter(here);
        assert(room.shares.take(n) == rest.push(share));
        rest.lemma_filter_push(share, here);
        peer_at_finds(room.peers, share.conn_id);
        assert(peer_at(room.peers, share.conn_id) is Some <==> here(share)) by {
            if let Some(i) = peer_at(room.peers, share.conn_id) {
                assert(conn_ids(room.peers)[i] == share.conn_id);
            }
            if here(share) {
                let i: int = conn_ids(room.peers).index_of(share.conn_id);
                assert(room.peers[i].conn_id == share.conn_id);
            }
        }
        let before = viewer_counts(room, n - 1);
        let counts = viewer_counts(room, n);
        let all = room.shares.take(n).filter(here);
        assert forall|k: int| 0 <= k < all.len() implies {
            &&& (#[trigger] counts[k]).to == seq![all[k].conn_id]
            &&& counts[k].msg matches ServerMsgView::ViewerCounts { share_id, video, audio }
            &&& share_id == all[k].id
            &&& video == video_watchers(room.peers, all[k].id)
            &&& audio == audio_watchers(room.peers, all[k].id)
        } by {
            if k < told.len() {
                assert(all[k] == told[k]);
                assert(counts[k] == before[k]);
            }
        }
    }
}

/// When shares have ended, each is announced to the same connections, in their order. Where the
/// built-in relay carries the media, each notice is followed by the close of that share's
/// session, and otherwise nothing is closed.
pub proof fn ended_shares_are_announced(shares: Seq<ShareView>, to: Seq<u64>, builtin: bool)
    ensures
        ({
            let step: int = if builtin {
                2
            } else {
                1
            };
            let effects = ended(shares, to, builtin);
            &&& effects.len() == step * shares.len()
            &&& forall|k: int|
                0 <= k < shares.len() ==> {
                    &&& effects[step * k] matches EffectView::Deliver(notice)
                    &&& notice.to == to
                    &&& notice.msg == (ServerMsgView::ShareEnded {
                        share_id: (#[trigger] shares[k]).id,
                    })
                    &&& builtin ==> effects[step * k + 1] == EffectView::CloseSession(
                        shares[k].publisher_session_id,
                    )
                }
        }),
    decreases shares.len(),
{
    let step: int = if builtin {
        2
    } else {
        1
    };
    if shares.len() > 0 {
        let rest = shares.drop_last();
        let n: int = rest.len() as int;
        ended_shares_are_announced(rest, to, builtin);
        let before = ended(rest, to, builtin);
        let last = ended_one(shares.last(), to, builtin);
        let effects = ended(shares, to, builtin);
        assert(effects == before + last);
        assert(before.len() == step * n);
        assert forall|k: int| 0 <= k < shares.len() implies {
            &&& effects[step * k] matches EffectView::Deliver(notice)
            &&& notice.to == to
            &&& notice.msg == (ServerMsgView::ShareEnded { share_id: (#[trigger] shares[k]).id })
            &&& builtin ==> effects[step * k + 1] == EffectView::CloseSession(
                shares[k].publisher_session_id,
            )
        } by {
            if k < n {
                assert(rest[k] == shares[k]);
                assert(effects[step * k] == before[step * k]);
                if builtin {
                    assert(effects[step * k + 1] == before[step * k + 1]);
                }
            } else {
                assert(effects[step * k] == last[0]);
                if builtin {
                    assert(effects[step * k + 1] == last[1]);
                }
            }
        }
    }
}

/// One share that has ended is announced as one of several is.
pub proof fn one_ended_share_is_announced(share: ShareView, to: Seq<u64>, builtin: bool)
    ensures
        ended(seq![share], to, builtin) == ended_one(share, to, builtin),
{
    reveal_with_fuel(ended, 2);
    assert(seq![share].drop_last() == Seq::<ShareView>::empty());
    assert(Seq::<EffectView>::empty() + ended_one(share, to, builtin) == ended_one(
        share,
        to,
        builtin,
    ));
}

/// All rooms together hold what each of them holds: no room none, and one more room its own
/// connections more, of everyone and of each user.
pub proof fn connections_add_up(slots: Seq<RoomSlotView>, slot: RoomSlotView, user_id: Seq<char>)
    ensures
        total_connections(Seq::empty()) == 0,
        user_connections(Seq::empty(), user_id) == 0,
        total_connections(slots.push(slot)) == total_connections(slots) + slot.room.peers.len(),
        user_connections(slots.push(slot), user_id) == user_connections(slots, user_id)
            + slot.room.peers.filter(|p: PeerView| p.user_id == user_id).len(),
{
    room_sum_push(slots, all_peers(), slot);
    room_sum_push(slots, user_peers(user_id), slot);
    watchers_are_filtered(slot.room.peers, user_id, user_id);
}

/// A room that is put in its place is the room of its instance, one that is taken away is gone,
/// and the rooms of all other instances stay as they were.
pub proof fn rooms_stand_by_instance(
    slots: Seq<RoomSlotView>,
    instance_id: Seq<char>,
    room: RoomView,
    other: Seq<char>,
)
    requires
        forall|i: int, j: int|
            0 <= i < j < slots.len() ==> #[trigger] slots[i].instance_id
                != #[trigger] slots[j].instance_id,
    ensures
        room_of(with_room(slots, instance_id, room), other) == (if other == instance_id {
            Some(room)
        } else {
            room_of(slots, other)
        }),
        room_of(without_room(slots, instance_id), other) == (if other == instance_id {
            None
        } else {
            room_of(slots, other)
        }),
        room_of(slots, other) is Some <==> exists|i: int|
            0 <= i < slots.len() && (#[trigger] slots[i]).instance_id == other,
        forall|i: int|
            0 <= i < slots.len() && (#[trigger] slots[i]).instance_id == other ==> room_of(
                slots,
                other,
            ) == Some(slots[i].room),
{
    let after = with_room(slots, instance_id, room);
    let left = without_room(slots, instance_id);
    slot_at_finds(slots, instance_id);
    slot_at_finds(slots, other);
    slot_at_finds(after, other);
    slot_at_finds(left, other);
    match slot_at(slots, instance_id) {
        Some(i) => {
            assert(after[i].instance_id == instance_id);
            if let Some(j) = slot_at(after, other) {
                assert(j != i ==> after[j] == slots[j]);
            }
            if let Some(j) = slot_at(left, other) {
                assert(left[j] == slots[if j < i {
                    j
                } else {
                    j + 1
                }]);
            }
            if let Some(k) = slot_at(slots, other) {
                if other != instance_id {
                    assert(after[k] == slots[k]);
                    assert(left[if k < i {
                        k
                    } else {
                        k - 1
                    }] == slots[k]);
                }
            }
        },
        None => {
            assert(after[slots.len() as int].instance_id == instance_id);
            if let Some(j) = slot_at(after, other) {
                assert(j < slots.len() ==> after[j] == slots[j]);
            }
            if let Some(k) = slot_at(slots, other) {
                assert(after[k] == slots[k]);
            }
        },
    }
}

/// Pruning forgets exactly the sessions that were opened more than a day ago.
pub proof fn pruning_forgets_only_the_old(
    owners: Seq<(Seq<char>, RtcSessionOwner)>,
    now: u64,
    entry: (Seq<char>, RtcSessionOwner),
)
    ensures
        owners.filter(remembered(now)).contains(entry) <==> owners.contains(entry) && now
            - entry.1.created_at <= 86400,
{
    let keep = remembered(now);
    if owners.contains(entry) && keep(entry) {
        owners.lemma_filter_contains(keep, owners.index_of(entry));
    }
    if owners.filter(keep).contains(entry) {
        owners.lemma_filter_contains_rev(keep, entry);
        owners.lemma_filter_pred(keep, owners.filter(keep).index_of(entry));
    }
}

/// A session that nobody is known to have opened is nobody's.
pub proof fn unknown_session_is_nobodys(
    sessions: Seq<(Seq<char>, RtcSessionOwner)>,
    session_id: Seq<char>,
    user_id: Seq<char>,
    instance_id: Seq<char>,
)
    requires
        forall|i: int| 0 <= i < sessions.len() ==> (#[trigger] sessions[i]).0 != session_id,
    ensures
        !opened_for(sessions, session_id, user_id, instance_id),
{
    table::entry_at_finds(sessions, session_id);
}

} // verus!
