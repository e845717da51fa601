//! One websocket connection over time: the handshake that lets it in and the
//! events that keep it open or end it.

use vstd::prelude::*;

use crate::auth::Claims;
use crate::ws::{
    MEMBERSHIP_ERROR_GRACE_SECS, MEMBERSHIP_ERROR_RETRY_SECS, MEMBERSHIP_RECHECK_SECS,
};

verus! {

/// Times are nanoseconds since an origin that is fixed for the connection.
pub const NANOS_PER_SEC: u64 = 1_000_000_000;

/// A duration of whole seconds, in nanoseconds.
pub open spec fn secs(n: u64) -> int {
    n * NANOS_PER_SEC
}

/// Where a connection stands before it has joined a room.
pub enum Handshake {
    /// Nothing has come in yet. Browsers cannot set headers on websockets, so
    /// the token comes in the first message.
    AwaitToken,
    /// The token holds; whether the user is still in the activity is being asked.
    AwaitMembership(Claims),
    /// The handshake has come to its end.
    Over,
}

/// What happens during the handshake.
pub enum HandshakeEvent {
    /// No first message came in time, or it held no token.
    NoToken,
    /// A token came: the claims that it proves, if it proves any.
    Token(Option<Claims>),
    /// Whether the user is a participant: `None` where that could not be found
    /// out.
    Membership(Option<bool>),
}

/// What has to be done next in the handshake.
pub enum HandshakeAction {
    /// Close without a word.
    Drop,
    /// Tell the client that it is not authorised, and close.
    Refuse,
    /// Ask whether the user is a participant of the activity instance.
    CheckMembership,
    /// Join the room with these claims.
    Join(Claims),
}

/// How the handshake goes on.
pub open spec fn handshaken(state: Handshake, event: HandshakeEvent) -> (
    Handshake,
    HandshakeAction,
) {
    match (state, event) {
        (Handshake::AwaitToken, HandshakeEvent::Token(Some(claims))) => (
            Handshake::AwaitMembership(claims),
            HandshakeAction::CheckMembership,
        ),
        (Handshake::AwaitToken, HandshakeEvent::Token(None)) => (
            Handshake::Over,
            HandshakeAction::Refuse,
        ),
        (Handshake::AwaitMembership(claims), HandshakeEvent::Membership(Some(true))) => (
            Handshake::Over,
            HandshakeAction::Join(claims),
        ),
        (Handshake::AwaitMembership(_), HandshakeEvent::Membership(_)) => (
            Handshake::Over,
            HandshakeAction::Refuse,
        ),
        _ => (Handshake::Over, HandshakeAction::Drop),
    }
}

impl Handshake {
    /// Takes one event of the handshake and says what has to be done.
    pub fn step(self, event: HandshakeEvent) -> (r: (Handshake, HandshakeAction))
        ensures
            r == handshaken(self, event),
            r.1 is CheckMembership <==> self is AwaitToken && event is Token && event->Token_0 is Some,
            r.1 is Join <==> self is AwaitMembership && event == HandshakeEvent::Membership(
                Some(true),
            ),
            r.1 is Refuse <==> {
                ||| self is AwaitToken && event == HandshakeEvent::Token(None)
                ||| self is AwaitMembership && event is Membership && event->Membership_0 != Some(
                    true,
                )
            },
            r.1 is CheckMembership ==> r.0 == Handshake::AwaitMembership(event->Token_0->0),
            r.1 !is CheckMembership ==> r.0 is Over,
            r.1 is Join ==> r.1 == HandshakeAction::Join(self->AwaitMembership_0),
    {
        match (self, event) {
            (Handshake::AwaitToken, HandshakeEvent::Token(Some(claims))) => (
                Handshake::AwaitMembership(claims),
                HandshakeAction::CheckMembership,
            ),
            (Handshake::AwaitToken, HandshakeEvent::Token(None)) => (
                Handshake::Over,
                HandshakeAction::Refuse,
            ),
            (Handshake::AwaitMembership(claims), HandshakeEvent::Membership(found)) => {
                match found {
                    Some(true) => (Handshake::Over, HandshakeAction::Join(claims)),
                    _ => (Handshake::Over, HandshakeAction::Refuse),
                }
            },
            _ => (Handshake::Over, HandshakeAction::Drop),
        }
    }
}

/// The handshake after some events.
pub open spec fn handshake_after(events: Seq<HandshakeEvent>) -> Handshake
    decreases events.len(),
{
    if events.len() == 0 {
        Handshake::AwaitToken
    } else {
        handshaken(handshake_after(events.drop_last()), events.last()).0
    }
}

/// A connection joins a room in one way only: its first event is a token that
/// proves the claims it joins with, and its second is the answer that the user
/// is a participant right now.
pub proof fn only_members_join(events: Seq<HandshakeEvent>, event: HandshakeEvent, claims: Claims)
    requires
        handshaken(handshake_after(events), event).1 == HandshakeAction::Join(claims),
    ensures
        events == seq![HandshakeEvent::Token(Some(claims))],
        event == HandshakeEvent::Membership(Some(true)),
{
    assert(handshake_after(events) == Handshake::AwaitMembership(claims));
    let before = handshake_after(events.drop_last());
    assert(before == Handshake::AwaitToken);
    if events.len() > 1 {
        never_awaits_again(events.drop_last());
    }
    assert(events.len() == 1);
}

proof fn never_awaits_again(events: Seq<HandshakeEvent>)
    requires
        events.len() > 0,
    ensures
        handshake_after(events) !is AwaitToken,
{
}

/// What is known of a user's membership of the activity instance.
#[derive(Clone, Copy)]
pub struct Membership {
    /// When it has to be checked again.
    pub next_check: u64,
    /// When the check first failed, if it has failed ever since.
    pub first_error: Option<u64>,
}

/// Whether the check has failed for so long that access has to be revoked. The
/// first failure is remembered.
pub fn membership_error_grace_exhausted(first_error: &mut Option<u64>, now: u64) -> (r: bool)
    ensures
        *final(first_error) == Some(
            match *old(first_error) {
                Some(t) => t,
                None => now,
            },
        ),
        r == (now - (match *old(first_error) {
            Some(t) => t,
            None => now,
        }) >= secs(MEMBERSHIP_ERROR_GRACE_SECS)),
{
    let first = match *first_error {
        Some(t) => t,
        None => now,
    };
    *first_error = Some(first);
    now.saturating_sub(first) >= MEMBERSHIP_ERROR_GRACE_SECS * NANOS_PER_SEC
}

/// Early enough that the time of the next check can still be written down.
pub open spec fn in_range(now: u64) -> bool {
    now + secs(MEMBERSHIP_RECHECK_SECS) <= u64::MAX
}

/// What a membership check leads to: the membership to go on with, or `None`
/// where the connection has to be closed.
pub open spec fn judged(m: Membership, found: Option<bool>, now: u64) -> Option<Membership> {
    match found {
        Some(true) => Some(
            Membership {
                next_check: (now + secs(MEMBERSHIP_RECHECK_SECS)) as u64,
                first_error: None,
            },
        ),
        Some(false) => None,
        None => {
            let first = match m.first_error {
                Some(t) => t,
                None => now,
            };
            if now - first >= secs(MEMBERSHIP_ERROR_GRACE_SECS) {
                None
            } else {
                Some(
                    Membership {
                        next_check: (now + secs(MEMBERSHIP_ERROR_RETRY_SECS)) as u64,
                        first_error: Some(first),
                    },
                )
            }
        },
    }
}

/// What is known of the membership after a check. Where the connection has to be
/// closed, only the first failure is remembered.
pub open spec fn known_after(m: Membership, found: Option<bool>, now: u64) -> Membership {
    match judged(m, found, now) {
        Some(after) => after,
        None => Membership {
            next_check: m.next_check,
            first_error: match (found, m.first_error) {
                (None, None) => Some(now),
                (_, first) => first,
            },
        },
    }
}

impl Membership {
    /// The membership of a user who was found to be a participant by a check made
    /// at this time.
    pub fn new(now: u64) -> (r: Membership)
        requires
            in_range(now),
        ensures
            r.next_check == now + secs(MEMBERSHIP_RECHECK_SECS),
            r.first_error is None,
    {
        Membership {
            next_check: now + MEMBERSHIP_RECHECK_SECS * NANOS_PER_SEC,
            first_error: None,
        }
    }

    /// Takes the result of a check: whether the user is a participant, or `None`
    /// where that could not be found out. Says whether the connection may stay.
    pub fn checked(&mut self, found: Option<bool>, now: u64) -> (r: bool)
        requires
            in_range(now),
        ensures
            r == (judged(*old(self), found, now) is Some),
            *final(self) == known_after(*old(self), found, now),
    {
        match found {
            Some(true) => {
                self.first_error = None;
                self.next_check = now + MEMBERSHIP_RECHECK_SECS * NANOS_PER_SEC;
                true
            },
            Some(false) => false,
            None => {
                if membership_error_grace_exhausted(&mut self.first_error, now) {
                    false
                } else {
                    self.next_check = now + MEMBERSHIP_ERROR_RETRY_SECS * NANOS_PER_SEC;
                    true
                }
            },
        }
    }
}

/// The membership after checks that all failed, at these times: `None` where the
/// connection has been closed.
pub open spec fn after_failures(m: Membership, times: Seq<u64>) -> Option<Membership>
    decreases times.len(),
{
    if times.len() == 0 {
        Some(m)
    } else {
        match after_failures(m, times.drop_last()) {
            Some(before) => judged(before, None, times.last()),
            None => None,
        }
    }
}

proof fn failures_remember_the_first(m: Membership, times: Seq<u64>)
    requires
        m.first_error is None,
        times.len() > 0,
    ensures
        after_failures(m, times) matches Some(after) ==> after.first_error == Some(times[0]),
    decreases times.len(),
{
    if times.len() > 1 {
        failures_remember_the_first(m, times.drop_last());
    } else {
        reveal_with_fuel(after_failures, 2);
    }
}

/// The check fails closed: a connection whose checks have all failed is closed by
/// the first one that comes a full grace period after the failures began.
pub proof fn failures_revoke_after_grace(m: Membership, times: Seq<u64>)
    requires
        m.first_error is None,
        times.len() > 0,
        times.last() - times[0] >= secs(MEMBERSHIP_ERROR_GRACE_SECS),
    ensures
        after_failures(m, times) is None,
{
    assert(times.len() > 1);
    failures_remember_the_first(m, times.drop_last());
}

/// Within the grace period failures are forgiven: a connection whose checks have
/// all failed stays open as long as they began less than a grace period ago.
pub proof fn failures_forgiven_within_grace(m: Membership, times: Seq<u64>)
    requires
        m.first_error is None,
        forall|i: int|
            0 <= i < times.len() ==> #[trigger] times[i] - times[0] < secs(
                MEMBERSHIP_ERROR_GRACE_SECS,
            ),
    ensures
        after_failures(m, times) is Some,
    decreases times.len(),
{
    if times.len() > 0 {
        assert(times[0] - times[0] < secs(MEMBERSHIP_ERROR_GRACE_SECS));
        failures_forgiven_within_grace(m, times.drop_last());
        assert(times[times.len() - 1] - times[0] < secs(MEMBERSHIP_ERROR_GRACE_SECS));
        if times.len() > 1 {
            failures_remember_the_first(m, times.drop_last());
        }
    }
}

/// However a check turns out, the next one of a connection that stays falls due
/// within the recheck period, and one whose user has left does not stay.
pub proof fn membership_is_rechecked(m: Membership, found: Option<bool>, now: u64)
    requires
        in_range(now),
    ensures
        judged(m, found, now) matches Some(after) ==> after.next_check <= now + secs(
            MEMBERSHIP_RECHECK_SECS,
        ),
        found == Some(false) ==> judged(m, found, now) is None,
{
}

/// What a client asks for.
pub enum ClientMsg {
    StopShare { share_id: String },
    /// Full replacement of the share ids this viewer is subscribed to.
    Watching { video: Vec<String>, audio: Vec<String> },
}

/// What happens to an open connection.
pub enum SocketEvent {
    /// A message for the client came out of its queue, or the queue is closed.
    Queued(Option<String>),
    /// Sending to the client failed.
    SendFailed,
    /// The client closed the connection, or it broke.
    Closed,
    /// A text message of the client: `None` where it cannot be read.
    Text(Option<ClientMsg>),
    /// Any other message of the client.
    OtherFrame,
    /// It is time for a keepalive.
    PingTick,
    /// It may be time to check membership.
    MembershipTick { now: u64 },
    /// A membership check has come back.
    MembershipChecked { found: Option<bool>, now: u64 },
    /// The session token has expired.
    TokenExpired,
}

/// What has to be done about it.
pub enum SocketAction {
    /// Send this text to the client.
    Send(String),
    /// Send a keepalive.
    Ping,
    /// Do what the client asks for.
    Serve(ClientMsg),
    /// Check membership.
    CheckMembership,
    /// Nothing: wait for the next event.
    Wait,
    /// Close the connection and clear up after it.
    Close,
}

/// What has to be done about an event, and the membership afterwards.
pub open spec fn reaction(m: Membership, event: SocketEvent) -> (SocketAction, Membership) {
    match event {
        SocketEvent::Queued(Some(raw)) => (SocketAction::Send(raw), m),
        SocketEvent::Queued(None) => (SocketAction::Close, m),
        SocketEvent::SendFailed => (SocketAction::Close, m),
        SocketEvent::Closed => (SocketAction::Close, m),
        SocketEvent::Text(Some(msg)) => (SocketAction::Serve(msg), m),
        SocketEvent::Text(None) => (SocketAction::Wait, m),
        SocketEvent::OtherFrame => (SocketAction::Wait, m),
        SocketEvent::PingTick => (SocketAction::Ping, m),
        SocketEvent::MembershipTick { now } => (
            if now < m.next_check {
                SocketAction::Wait
            } else {
                SocketAction::CheckMembership
            },
            m,
        ),
        SocketEvent::MembershipChecked { found, now } => (
            if judged(m, found, now) is Some {
                SocketAction::Wait
            } else {
                SocketAction::Close
            },
            known_after(m, found, now),
        ),
        SocketEvent::TokenExpired => (SocketAction::Close, m),
    }
}

/// Takes one event of an open connection and says what has to be done.
pub fn react(m: &mut Membership, event: SocketEvent) -> (r: SocketAction)
    requires
        event matches SocketEvent::MembershipChecked { now, .. } ==> in_range(now),
    ensures
        r == reaction(*old(m), event).0,
        *final(m) == reaction(*old(m), event).1,
        event matches SocketEvent::Text(Some(msg)) ==> r == SocketAction::Serve(msg),
        event matches SocketEvent::Queued(Some(raw)) ==> r == SocketAction::Send(raw),
        r is Serve ==> event is Text,
        r is Send ==> event is Queued,
        r is Ping <==> event is PingTick,
        r is CheckMembership <==> event is MembershipTick && event->MembershipTick_now
            >= old(m).next_check,
        r is Close <==> {
            ||| event is SendFailed
            ||| event is Closed
            ||| event is TokenExpired
            ||| event == SocketEvent::Queued(None)
            ||| event is MembershipChecked && judged(
                *old(m),
                event->found,
                event->MembershipChecked_now,
            ) is None
        },
        event !is MembershipChecked ==> *final(m) == *old(m),
{
    match event {
        SocketEvent::Queued(Some(raw)) => SocketAction::Send(raw),
        SocketEvent::Queued(None) => SocketAction::Close,
        SocketEvent::SendFailed => SocketAction::Close,
        SocketEvent::Closed => SocketAction::Close,
        SocketEvent::Text(Some(msg)) => SocketAction::Serve(msg),
        SocketEvent::Text(None) => SocketAction::Wait,
        SocketEvent::OtherFrame => SocketAction::Wait,
        SocketEvent::PingTick => SocketAction::Ping,
        SocketEvent::MembershipTick { now } => {
            if now < m.next_check {
                SocketAction::Wait
            } else {
                SocketAction::CheckMembership
            }
        },
        SocketEvent::MembershipChecked { found, now } => {
            if m.checked(found, now) {
                SocketAction::Wait
            } else {
                SocketAction::Close
            }
        },
        SocketEvent::TokenExpired => SocketAction::Close,
    }
}

/// What becomes of a connection at a tick, given what a check at that time would
/// find: the membership to go on with, or `None` where the connection is closed.
pub open spec fn ticked(m: Membership, now: u64, found: Option<bool>) -> Option<Membership> {
    if reaction(m, SocketEvent::MembershipTick { now }).0 is CheckMembership {
        let (action, after) = reaction(m, SocketEvent::MembershipChecked { found, now });
        if action is Close {
            None
        } else {
            Some(after)
        }
    } else {
        Some(m)
    }
}

/// What becomes of a connection over some ticks, each with its time and with what a
/// check at that time would find.
pub open spec fn after_ticks(m: Membership, ticks: Seq<(u64, Option<bool>)>) -> Option<Membership>
    decreases ticks.len(),
{
    if ticks.len() == 0 {
        Some(m)
    } else {
        match after_ticks(m, ticks.drop_last()) {
            Some(before) => ticked(before, ticks.last().0, ticks.last().1),
            None => None,
        }
    }
}

/// The membership that a check at this time leaves when it finds a participant.
pub open spec fn admitted_at(start: u64) -> Membership {
    Membership { next_check: (start + secs(MEMBERSHIP_RECHECK_SECS)) as u64, first_error: None }
}

/// Every check is answered, and from the time `left` on it finds that the user is
/// no participant.
pub open spec fn gone_from(ticks: Seq<(u64, Option<bool>)>, left: u64) -> bool {
    forall|i: int|
        0 <= i < ticks.len() ==> {
            &&& (#[trigger] ticks[i]).1 is Some
            &&& ticks[i].0 >= left ==> ticks[i].1 == Some(false)
        }
}

/// While the connection is open, no tick comes later than the check falls due: the
/// time of the next check is one of the times at which it is woken.
pub open spec fn punctual(m: Membership, ticks: Seq<(u64, Option<bool>)>) -> bool {
    forall|i: int|
        0 <= i < ticks.len() ==> (after_ticks(m, #[trigger] ticks.take(i)) matches Some(before)
            ==> ticks[i].0 <= before.next_check)
}

/// A user who leaves is cut off within the recheck period. The connection of a user
/// who was a participant at `start` and has left at `left` does not outlive any tick
/// that comes a recheck period after that. As long as it is open, its next check
/// falls due within that period, and a tick at that time closes it if the user has
/// left by then. So where ticks are punctual, the one that closes it comes within the
/// period.
pub proof fn leaver_is_cut_off(start: u64, left: u64, ticks: Seq<(u64, Option<bool>)>)
    requires
        in_range(start),
        start <= left,
        forall|i: int| 0 <= i < ticks.len() ==> in_range((#[trigger] ticks[i]).0),
        gone_from(ticks, left),
    ensures
        ticks.len() > 0 && ticks.last().0 >= left + secs(MEMBERSHIP_RECHECK_SECS) ==> after_ticks(
            admitted_at(start),
            ticks,
        ) is None,
        after_ticks(admitted_at(start), ticks) matches Some(m) ==> {
            &&& m.next_check <= left + secs(MEMBERSHIP_RECHECK_SECS)
            &&& m.next_check >= left ==> ticked(m, m.next_check, Some(false)) is None
        },
        punctual(admitted_at(start), ticks) ==> forall|i: int|
            0 <= i < ticks.len() && after_ticks(
                admitted_at(start),
                #[trigger] ticks.take(i),
            ) is Some && after_ticks(admitted_at(start), ticks.take(i + 1)) is None ==> ticks[i].0
                <= left + secs(MEMBERSHIP_RECHECK_SECS),
    decreases ticks.len(),
{
    let m = admitted_at(start);
    if ticks.len() > 0 {
        let rest = ticks.drop_last();
        assert forall|i: int| 0 <= i < rest.len() implies #[trigger] rest[i] == ticks[i] by {}
        leaver_is_cut_off(start, left, rest);
        assert(ticks[ticks.len() - 1] == ticks.last());
        if punctual(m, ticks) {
            assert(punctual(m, rest)) by {
                assert forall|i: int| 0 <= i < rest.len() implies (after_ticks(
                    m,
                    #[trigger] rest.take(i),
                ) matches Some(before) ==> rest[i].0 <= before.next_check) by {
                    assert(rest.take(i) == ticks.take(i));
                }
            }
            assert forall|i: int|
                0 <= i < ticks.len() && after_ticks(m, #[trigger] ticks.take(i)) is Some
                    && after_ticks(m, ticks.take(i + 1)) is None implies ticks[i].0 <= left + secs(
                MEMBERSHIP_RECHECK_SECS,
            ) by {
                assert(rest == ticks.take(ticks.len() - 1));
                if i < rest.len() {
                    assert(rest.take(i) == ticks.take(i));
                    assert(rest.take(i + 1) == ticks.take(i + 1));
                }
            }
        }
    }
}

/// A connection gets in by a token that proves some claims and by the answer that their user
/// is a participant, and joins with those very claims. Any other answer and a token that
/// proves nothing are refused, no token at all is dropped, and each of these ends the
/// handshake.
pub proof fn participants_are_let_in(claims: Claims, found: Option<bool>)
    ensures
        ({
            let (waiting, asked) = handshaken(
                Handshake::AwaitToken,
                HandshakeEvent::Token(Some(claims)),
            );
            let (over, done) = handshaken(waiting, HandshakeEvent::Membership(found));
            &&& asked is CheckMembership
            &&& over is Over
            &&& found == Some(true) ==> done == HandshakeAction::Join(claims)
            &&& found != Some(true) ==> done is Refuse
        }),
        ({
            let (over, done) = handshaken(Handshake::AwaitToken, HandshakeEvent::Token(None));
            over is Over && done is Refuse
        }),
        ({
            let (over, done) = handshaken(Handshake::AwaitToken, HandshakeEvent::NoToken);
            over is Over && done is Drop
        }),
        handshake_after(Seq::empty()) is AwaitToken,
{
}

/// A check that finds a participant forgets earlier failures and falls due again after five
/// minutes. One that finds none ends the connection. One that fails is tried again after
/// half a minute and remembers when the failures began, unless that was a minute ago or
/// more: that ends the connection.
pub proof fn checks_decide_by_what_they_find(m: Membership, now: u64)
    requires
        in_range(now),
    ensures
        judged(m, Some(true), now) matches Some(after) && after.next_check == now
            + 300_000_000_000 && after.first_error is None,
        judged(m, Some(false), now) is None,
        ({
            let began = match m.first_error {
                Some(t) => t,
                None => now,
            };
            if now - began >= 60_000_000_000 {
                judged(m, None, now) is None
            } else {
                judged(m, None, now) matches Some(after) && after.next_check == now
                    + 30_000_000_000 && after.first_error == Some(began)
            }
        }),
        forall|found: Option<bool>| #[trigger]
            judged(m, found, now) is Some ==> known_after(m, found, now) == judged(
                m,
                found,
                now,
            )->0,
{
}

/// Every message of a client that can be read is served as it is, and only one that cannot
/// is passed over.
pub proof fn readable_messages_are_served(m: Membership, read: Option<ClientMsg>)
    ensures
        match read {
            Some(msg) => reaction(m, SocketEvent::Text(Some(msg))) == (SocketAction::Serve(msg), m),
            None => reaction(m, SocketEvent::Text(None)) == (SocketAction::Wait, m),
        },
{
}

/// Whatever waits for a client is sent to it as it is, a keepalive goes out when it is time,
/// and membership is checked from the time on at which that falls due.
pub proof fn clients_get_what_waits_for_them(m: Membership, raw: String, now: u64)
    ensures
        reaction(m, SocketEvent::Queued(Some(raw))) == (SocketAction::Send(raw), m),
        reaction(m, SocketEvent::PingTick) == (SocketAction::Ping, m),
        reaction(m, SocketEvent::MembershipTick { now }).0 is CheckMembership <==> now
            >= m.next_check,
        reaction(m, SocketEvent::MembershipTick { now }).0 is Wait <==> now < m.next_check,
        reaction(m, SocketEvent::MembershipTick { now }).1 == m,
        reaction(m, SocketEvent::OtherFrame) == (SocketAction::Wait, m),
{
}

/// A connection is closed where its queue or its socket is, where sending fails, where its
/// token has expired and where a check ends it, and by nothing else.
pub proof fn connections_close_for_a_reason(m: Membership, event: SocketEvent)
    ensures
        reaction(m, event).0 is Close <==> match event {
            SocketEvent::Queued(waiting) => waiting is None,
            SocketEvent::SendFailed => true,
            SocketEvent::Closed => true,
            SocketEvent::TokenExpired => true,
            SocketEvent::MembershipChecked { found, now } => found == Some(false) || (found is None
                && m.first_error is Some && now - m.first_error->0 >= 60_000_000_000),
            _ => false,
        },
{
}

} // verus!
