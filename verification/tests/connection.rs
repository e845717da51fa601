use nao_me_prenda_janja::auth::{Claims, Role};
use nao_me_prenda_janja::connection::{
    membership_error_grace_exhausted, react, ClientMsg, Handshake, HandshakeAction, HandshakeEvent,
    Membership, SocketAction, SocketEvent, NANOS_PER_SEC,
};
use nao_me_prenda_janja::ws::{MEMBERSHIP_ERROR_GRACE_SECS, MEMBERSHIP_RECHECK_SECS};

const START: u64 = 1_000_000 * NANOS_PER_SEC;

fn claims() -> Claims {
    Claims {
        sub: "42".to_string(),
        name: "Ana".to_string(),
        avatar: None,
        inst: "room".to_string(),
        chan: None,
        guild: None,
        role: Role::Member,
        exp: 9,
    }
}

#[test]
fn membership_dependency_errors_fail_closed_after_grace() {
    let start = START;
    let mut first_error = None;
    assert!(!membership_error_grace_exhausted(&mut first_error, start));
    assert!(!membership_error_grace_exhausted(
        &mut first_error,
        start + (MEMBERSHIP_ERROR_GRACE_SECS - 1) * NANOS_PER_SEC
    ));
    assert!(membership_error_grace_exhausted(
        &mut first_error,
        start + MEMBERSHIP_ERROR_GRACE_SECS * NANOS_PER_SEC
    ));
}

#[test]
fn members_join_after_token_and_check() {
    let (state, action) = Handshake::AwaitToken.step(HandshakeEvent::Token(Some(claims())));
    assert!(matches!(action, HandshakeAction::CheckMembership));
    let (state, action) = state.step(HandshakeEvent::Membership(Some(true)));
    assert!(matches!(state, Handshake::Over));
    match action {
        HandshakeAction::Join(claims) => assert_eq!(claims.sub, "42"),
        _ => panic!("not joined"),
    }
}

#[test]
fn everyone_else_is_refused_or_dropped() {
    let awaiting = || Handshake::AwaitMembership(claims());
    let (_, action) = Handshake::AwaitToken.step(HandshakeEvent::NoToken);
    assert!(matches!(action, HandshakeAction::Drop));
    let (_, action) = Handshake::AwaitToken.step(HandshakeEvent::Token(None));
    assert!(matches!(action, HandshakeAction::Refuse));
    let (_, action) = awaiting().step(HandshakeEvent::Membership(Some(false)));
    assert!(matches!(action, HandshakeAction::Refuse));
    let (_, action) = awaiting().step(HandshakeEvent::Membership(None));
    assert!(matches!(action, HandshakeAction::Refuse));
    let (_, action) = Handshake::AwaitToken.step(HandshakeEvent::Membership(Some(true)));
    assert!(matches!(action, HandshakeAction::Drop));
    let (_, action) = Handshake::Over.step(HandshakeEvent::Token(Some(claims())));
    assert!(matches!(action, HandshakeAction::Drop));
}

#[test]
fn membership_is_checked_when_it_is_due() {
    let mut m = Membership::new(START);
    assert_eq!(m.next_check, START + MEMBERSHIP_RECHECK_SECS * NANOS_PER_SEC);
    let early = SocketEvent::MembershipTick { now: m.next_check - 1 };
    assert!(matches!(react(&mut m, early), SocketAction::Wait));
    let due = SocketEvent::MembershipTick { now: m.next_check };
    assert!(matches!(react(&mut m, due), SocketAction::CheckMembership));
}

#[test]
fn a_leaver_is_cut_off_within_the_recheck_period() {
    // Let in at the start, gone one nanosecond later: the check that falls due closes
    // the connection, within the recheck period.
    let left = START + 1;
    let mut m = Membership::new(START);
    let due = m.next_check;
    assert!(due <= left + MEMBERSHIP_RECHECK_SECS * NANOS_PER_SEC);
    let action = react(&mut m, SocketEvent::MembershipTick { now: due });
    assert!(matches!(action, SocketAction::CheckMembership));
    let gone = SocketEvent::MembershipChecked { found: Some(false), now: due };
    assert!(matches!(react(&mut m, gone), SocketAction::Close));
}

#[test]
fn a_member_who_left_is_closed() {
    let mut m = Membership::new(START);
    let event = SocketEvent::MembershipChecked { found: Some(false), now: START };
    assert!(matches!(react(&mut m, event), SocketAction::Close));
}

#[test]
fn failures_are_retried_within_the_grace_period() {
    let mut m = Membership::new(START);
    for (after, stays) in [(0, true), (30, true), (59, true), (60, false)] {
        let now = START + after * NANOS_PER_SEC;
        let event = SocketEvent::MembershipChecked { found: None, now };
        let action = react(&mut m, event);
        assert_eq!(matches!(action, SocketAction::Wait), stays, "{after}");
        if stays {
            assert_eq!(m.next_check, now + 30 * NANOS_PER_SEC);
            assert_eq!(m.first_error, Some(START));
        } else {
            assert!(matches!(action, SocketAction::Close));
        }
    }
}

#[test]
fn a_good_check_forgets_the_failures() {
    let mut m = Membership::new(START);
    react(&mut m, SocketEvent::MembershipChecked { found: None, now: START });
    let later = START + 59 * NANOS_PER_SEC;
    react(&mut m, SocketEvent::MembershipChecked { found: Some(true), now: later });
    assert_eq!(m.first_error, None);
    assert_eq!(m.next_check, later + 300 * NANOS_PER_SEC);
    let again = START + 100 * NANOS_PER_SEC;
    let action = react(&mut m, SocketEvent::MembershipChecked { found: None, now: again });
    assert!(matches!(action, SocketAction::Wait));
}

#[test]
fn events_lead_to_their_actions() {
    let mut m = Membership::new(START);
    match react(&mut m, SocketEvent::Queued(Some("hi".to_string()))) {
        SocketAction::Send(raw) => assert_eq!(raw, "hi"),
        _ => panic!("not sent"),
    }
    let stop = ClientMsg::StopShare { share_id: "s".to_string() };
    match react(&mut m, SocketEvent::Text(Some(stop))) {
        SocketAction::Serve(ClientMsg::StopShare { share_id }) => assert_eq!(share_id, "s"),
        _ => panic!("not served"),
    }
    assert!(matches!(react(&mut m, SocketEvent::Queued(None)), SocketAction::Close));
    assert!(matches!(react(&mut m, SocketEvent::SendFailed), SocketAction::Close));
    assert!(matches!(react(&mut m, SocketEvent::Closed), SocketAction::Close));
    assert!(matches!(react(&mut m, SocketEvent::Text(None)), SocketAction::Wait));
    assert!(matches!(react(&mut m, SocketEvent::OtherFrame), SocketAction::Wait));
    assert!(matches!(react(&mut m, SocketEvent::PingTick), SocketAction::Ping));
    assert!(matches!(react(&mut m, SocketEvent::TokenExpired), SocketAction::Close));
}
