use nao_me_prenda_janja::auth::{
    accept_claims, accept_payload, expires_in, frame_token, mint, now_secs, random_id, split_token,
    verify, verify_at, verify_now, Claims, Role, SESSION_TTL_SECS,
};

fn claims(exp: u64) -> Claims {
    Claims {
        sub: "42".to_string(),
        name: "Ana".to_string(),
        avatar: Some("a1".to_string()),
        inst: "room".to_string(),
        chan: None,
        guild: Some("g".to_string()),
        role: Role::Publisher,
        exp,
    }
}

#[test]
fn token_has_the_known_text() {
    assert_eq!(
        mint("secret", b"{\"sub\":\"1\"}"),
        "eyJzdWIiOiIxIn0.WHIDba94D4Mme2nzKHOmn20VpNdnFBXh4SQt1GSFoDQ"
    );
    // The URL-safe alphabet, and a secret that is not ASCII.
    assert_eq!(
        mint("k\u{e9}y", &[0xfb, 0xff, 0xfe]),
        "-__-.lAhvqG8qSGkEqKR2nLr0m01djPS77XabRT57ZUKMwl0"
    );
}

#[test]
fn minted_token_gives_its_payload_back() {
    for payload in [&b""[..], b"x", b"ab", b"{\"exp\":18446744073709551615}"] {
        let token = mint("s3cret", payload);
        assert_eq!(verify("s3cret", &token), Some(payload.to_vec()));
    }
}

#[test]
fn foreign_or_broken_tokens_are_refused() {
    let token = mint("one", b"payload");
    assert_eq!(verify("two", &token), None);
    assert_eq!(verify("one", "no dot at all"), None);
    assert_eq!(verify("one", ""), None);
    assert_eq!(verify("one", &format!("{token}A")), None);
    assert_eq!(verify("one", &format!("x{token}")), None);
    assert_eq!(verify("one", "cGF5bG9hZA.***"), None);
    assert_eq!(verify("one", "."), None);
}

#[test]
fn signature_over_text_that_is_not_base64_is_refused() {
    // The signature holds, but the part it signs does not decode.
    let good = mint("k", &[]);
    assert_eq!(verify("k", &good), Some(vec![]));
    let (payload, _) = split_token(&good).unwrap();
    assert_eq!(payload, "");
    assert_eq!(accept_payload(true, None), None);
    assert_eq!(accept_payload(false, Some(vec![1])), None);
    assert_eq!(accept_payload(true, Some(vec![1])), Some(vec![1]));
}

#[test]
fn tokens_split_at_the_first_dot() {
    assert_eq!(split_token("a.b.c"), Some(("a".to_string(), "b.c".to_string())));
    assert_eq!(split_token(".sig"), Some((String::new(), "sig".to_string())));
    assert_eq!(split_token("nothing"), None);
    assert_eq!(frame_token("a", "b.c"), "a.b.c");
}

#[test]
fn claims_hold_up_to_their_last_second() {
    assert!(accept_claims(Some(claims(100)), 99).is_some());
    assert!(accept_claims(Some(claims(100)), 100).is_some());
    assert!(accept_claims(Some(claims(100)), 101).is_none());
    assert!(accept_claims(None, 0).is_none());
    let kept = accept_claims(Some(claims(100)), 1).unwrap();
    assert_eq!(kept.sub, "42");
    assert_eq!(kept.guild.as_deref(), Some("g"));
    assert!(kept.role == Role::Publisher);
}

/// Reads claims that expire at the number which the payload writes.
fn parse(payload: &[u8]) -> Option<Claims> {
    String::from_utf8(payload.to_vec()).ok()?.parse().ok().map(claims)
}

#[test]
fn minted_claims_come_back_until_they_expire() {
    let token = mint("k", b"100");
    for now in [0, 99, 100] {
        let held = verify_at("k", &token, parse, now).unwrap();
        assert_eq!(held.exp, 100);
        assert_eq!(held.sub, "42");
    }
    assert!(verify_at("k", &token, parse, 101).is_none());
    assert!(verify_at("other", &token, parse, 0).is_none());
    assert!(verify_at("k", &mint("k", b"no number"), parse, 0).is_none());
    assert!(verify_at("k", "no token", parse, 0).is_none());
}

#[test]
fn claims_are_held_against_the_clock() {
    assert!(verify_now("k", &mint("k", b"18446744073709551615"), parse).is_some());
    assert!(verify_now("k", &mint("k", b"1"), parse).is_none());
    assert!(verify_now("k", &mint("k", b""), parse).is_none());
    assert!(verify_now("j", &mint("k", b"18446744073709551615"), parse).is_none());
}

#[test]
fn only_one_text_is_accepted_for_a_payload() {
    let token = mint("k", b"x");
    assert!(verify("k", &token).is_some());
    let (payload, sig) = split_token(&token).unwrap();
    assert_eq!(verify("k", &frame_token(&payload, &format!("{sig}="))), None);
    assert_eq!(verify("k", &frame_token(&format!("{payload}=="), &sig)), None);
    assert_eq!(verify("k", &format!("{token}.")), None);
    // The last letter of a signature has two bits that are not used: setting them
    // makes another text, and no token.
    let alphabet = "ABCDEFGHIJKLMNOPQRSTUVWXYZabcdefghijklmnopqrstuvwxyz0123456789-_";
    let stem = &sig[..sig.len() - 1];
    for last in alphabet.chars() {
        let other = format!("{stem}{last}");
        assert_eq!(verify("k", &frame_token(&payload, &other)).is_some(), other == sig);
    }
}

#[test]
fn cloned_claims_are_the_same() {
    let c = claims(7).clone();
    assert_eq!(c.name, "Ana");
    assert_eq!(c.avatar.as_deref(), Some("a1"));
    assert_eq!(c.inst, "room");
    assert_eq!(c.chan, None);
    assert_eq!(c.exp, 7);
}

#[test]
fn remaining_lifetime_does_not_go_below_zero() {
    assert_eq!(expires_in(&claims(100), 40), 60);
    assert_eq!(expires_in(&claims(100), 100), 0);
    assert_eq!(expires_in(&claims(100), 101), 0);
    assert_eq!(SESSION_TTL_SECS, 24 * 60 * 60);
}

#[test]
fn random_ids_are_hexadecimal_and_differ() {
    let a = random_id(16);
    let b = random_id(16);
    assert_eq!(a.len(), 32);
    assert!(a.chars().all(|c| matches!(c, '0'..='9' | 'a'..='f')));
    assert_ne!(a, b);
    assert_ne!(a, "0".repeat(32));
    assert_eq!(random_id(0), "");
}

#[test]
fn clock_stands_after_the_epoch() {
    // 2023-01-01, long past.
    assert!(now_secs() > 1_672_531_200);
    assert!(now_secs() <= now_secs() + 1);
}
