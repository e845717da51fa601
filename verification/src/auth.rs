//! Session tokens: a payload and its keyed signature, both in URL-safe base64.

use base64::engine::general_purpose::URL_SAFE_NO_PAD;
use base64::Engine;
use hmac::{Hmac, Mac};
use rand::RngCore;
use sha2::Sha256;
use vstd::prelude::*;
use vstd::utf8;

use crate::config;
use crate::text;

verus! {

/// How long a session token stays valid, in seconds.
pub const SESSION_TTL_SECS: u64 = 86400;

/// What a session may do.
#[derive(Clone, Copy, PartialEq, Eq, Structural)]
pub enum Role {
    /// Authenticated inside the activity iframe: can watch streams.
    Member,
    /// Authenticated on the external share page: can also publish.
    Publisher,
}

/// What a session token says about its holder.
pub struct Claims {
    /// Discord user id.
    pub sub: String,
    pub name: String,
    pub avatar: Option<String>,
    /// Activity instance id, which doubles as the room key.
    pub inst: String,
    pub chan: Option<String>,
    pub guild: Option<String>,
    pub role: Role,
    /// Unix seconds.
    pub exp: u64,
}

impl Clone for Claims {
    fn clone(&self) -> (r: Self)
        ensures
            r == *self,
    {
        Claims {
            sub: self.sub.clone(),
            name: self.name.clone(),
            avatar: text::copy_opt(&self.avatar),
            inst: self.inst.clone(),
            chan: text::copy_opt(&self.chan),
            guild: text::copy_opt(&self.guild),
            role: self.role,
            exp: self.exp,
        }
    }
}

/// The tag that HMAC with SHA-256 gives for a key and a message.
pub uninterp spec fn hmac_sha256(key: Seq<u8>, message: Seq<u8>) -> Seq<u8>;

/// The characters of the URL-safe base64 alphabet.
pub open spec fn url_safe(c: char) -> bool {
    ||| 'A' <= c <= 'Z'
    ||| 'a' <= c <= 'z'
    ||| '0' <= c <= '9'
    ||| c == '-'
    ||| c == '_'
}

/// The letter of a number below sixty-four.
pub open spec fn letter(n: int) -> char {
    if n < 26 {
        ('A' as int + n) as char
    } else if n < 52 {
        ('a' as int + n - 26) as char
    } else if n < 62 {
        ('0' as int + n - 52) as char
    } else if n == 62 {
        '-'
    } else {
        '_'
    }
}

/// The byte at a position, zero behind the last.
pub open spec fn byte_or_zero(bytes: Seq<u8>, i: int) -> int {
    if i < bytes.len() {
        bytes[i] as int
    } else {
        0
    }
}

/// The `i`-th group of six bits. Three bytes make four groups.
pub open spec fn sextet(bytes: Seq<u8>, i: int) -> int {
    let first = byte_or_zero(bytes, i / 4 * 3);
    let second = byte_or_zero(bytes, i / 4 * 3 + 1);
    let third = byte_or_zero(bytes, i / 4 * 3 + 2);
    if i % 4 == 0 {
        first / 4
    } else if i % 4 == 1 {
        first % 4 * 16 + second / 16
    } else if i % 4 == 2 {
        second % 16 * 4 + third / 64
    } else {
        third % 64
    }
}

/// The text of some bytes in URL-safe base64 without padding: a letter for every
/// group of six bits that holds a bit of theirs.
pub open spec fn base64_url(bytes: Seq<u8>) -> Seq<char> {
    Seq::new((bytes.len() * 4 + 2) / 3, |i: int| letter(sextet(bytes, i)))
}

proof fn letters_are_apart(m: int, n: int)
    requires
        0 <= m < 64,
        0 <= n < 64,
        letter(m) == letter(n),
    ensures
        m == n,
{
}

proof fn sextet_is_small(bytes: Seq<u8>, i: int)
    ensures
        0 <= i ==> 0 <= sextet(bytes, i) < 64,
{
}

/// Base64 text is made of its alphabet alone and so holds no dot.
pub proof fn base64_is_url_safe(bytes: Seq<u8>)
    ensures
        forall|i: int| 0 <= i < base64_url(bytes).len() ==> url_safe(#[trigger] base64_url(bytes)[i]),
        !base64_url(bytes).contains('.'),
{
    let t = base64_url(bytes);
    assert forall|i: int| 0 <= i < t.len() implies url_safe(#[trigger] t[i]) by {
        sextet_is_small(bytes, i);
    }
    if t.contains('.') {
        let k = t.index_of('.');
        assert(url_safe(t[k]));
    }
}

/// Base64 text stands for one sequence of bytes only.
pub proof fn base64_is_injective(a: Seq<u8>, b: Seq<u8>)
    ensures
        base64_url(a) == base64_url(b) ==> a == b,
{
    if base64_url(a) == base64_url(b) {
        let t = base64_url(a);
        assert(t.len() == base64_url(b).len());
        assert(a.len() == b.len());
        assert forall|i: int| 0 <= i < t.len() implies sextet(a, i) == sextet(b, i) by {
            assert(base64_url(a)[i] == base64_url(b)[i]);
            sextet_is_small(a, i);
            sextet_is_small(b, i);
            letters_are_apart(sextet(a, i), sextet(b, i));
        }
        assert forall|k: int| 0 <= k < a.len() implies a[k] == b[k] by {
            let q = k / 3;
            let i = 4 * q + k % 3;
            assert(i + 1 < t.len());
            assert(i / 4 == q && (i + 1) / 4 == q);
            assert(sextet(a, i) == sextet(b, i));
            assert(sextet(a, i + 1) == sextet(b, i + 1));
            assert(q * 3 + k % 3 == k);
        }
        assert(a == b);
    }
}

/// So many bytes can be encoded: the text that comes out fits in memory.
pub open spec fn encodable(len: int) -> bool {
    len / 3 * 4 + 4 <= isize::MAX
}

/// `base64::Engine::encode` with the engine `URL_SAFE_NO_PAD`: the text
/// is that of the bytes, in the URL-safe alphabet and without padding.
#[verifier::external_body]
fn encode_url(bytes: &[u8]) -> (r: String)
    requires
        encodable(bytes@.len() as int),
    ensures
        r@ == base64_url(bytes@),
{
    URL_SAFE_NO_PAD.encode(bytes)
}

/// `base64::Engine::decode` with the engine `URL_SAFE_NO_PAD`: it undoes the
/// encoding and accepts nothing else. A text that it reads is the encoding of the
/// bytes that it gives: padding, unused bits that are set, a length that no encoding
/// has and characters outside the alphabet are errors.
#[verifier::external_body]
fn decode_url(text: &str) -> (r: Option<Vec<u8>>)
    ensures
        match r {
            Some(bytes) => text@ == base64_url(bytes@),
            None => forall|b: Seq<u8>| text@ != #[trigger] base64_url(b),
        },
{
    URL_SAFE_NO_PAD.decode(text).ok()
}

/// `hmac::Mac::finalize` of `Hmac<Sha256>`, which takes a key of any length:
/// the tag depends on the key and the message alone and is 32 bytes long.
#[verifier::external_body]
fn tag(key: &[u8], message: &[u8]) -> (r: Vec<u8>)
    ensures
        r@ == hmac_sha256(key@, message@),
        r@.len() == 32,
{
    let mut mac = Hmac::<Sha256>::new_from_slice(key).expect("hmac accepts any key length");
    mac.update(message);
    mac.finalize().into_bytes().to_vec()
}

/// `hmac::Mac::verify_slice` of `Hmac<Sha256>`: it accepts the bytes that
/// `finalize` would give for the same key and message, and no others.
#[verifier::external_body]
fn tag_matches(key: &[u8], message: &[u8], expected: &[u8]) -> (r: bool)
    ensures
        r == (expected@ == hmac_sha256(key@, message@)),
{
    let mut mac = Hmac::<Sha256>::new_from_slice(key).expect("hmac accepts any key length");
    mac.update(message);
    mac.verify_slice(expected).is_ok()
}

/// `rand::RngCore::fill_bytes` of the thread's generator: it fills every byte
/// of the buffer. Which bytes come is left open: they are random.
#[verifier::external_body]
fn random_bytes(n: usize) -> (r: Vec<u8>)
    requires
        n <= isize::MAX,
    ensures
        r@.len() == n,
{
    let mut buf = vec![0u8; n];
    rand::rng().fill_bytes(&mut buf);
    buf
}

/// The seconds since the Unix epoch, from `std::time::SystemTime`. Nothing is
/// stated of the reading: it is the machine's clock. It panics where that clock
/// stands before the epoch.
#[verifier::external_body]
pub fn now_secs() -> u64 {
    std::time::SystemTime::now()
        .duration_since(std::time::UNIX_EPOCH)
        .expect("clock before unix epoch")
        .as_secs()
}

/// The text of a token made of these two parts.
pub open spec fn framed(payload: Seq<char>, sig: Seq<char>) -> Seq<char> {
    payload.push('.') + sig
}

/// A token's part before the first dot and its part after it.
pub open spec fn split_at_dot(token: Seq<char>) -> Option<(Seq<char>, Seq<char>)>
    decreases token.len(),
{
    if token.len() == 0 {
        None
    } else if token[0] == '.' {
        Some((Seq::empty(), token.skip(1)))
    } else {
        match split_at_dot(token.skip(1)) {
            Some((payload, sig)) => Some((seq![token[0]] + payload, sig)),
            None => None,
        }
    }
}

/// The signature of the bytes that a token carries: that of their text.
pub open spec fn signature(secret: Seq<char>, bytes: Seq<u8>) -> Seq<char> {
    base64_url(hmac_sha256(utf8::encode_utf8(secret), utf8::encode_utf8(base64_url(bytes))))
}

/// The one token that carries some bytes under a secret.
pub open spec fn minted(secret: Seq<char>, bytes: Seq<u8>) -> Seq<char> {
    framed(base64_url(bytes), signature(secret, bytes))
}

/// A token carries these bytes, signed with `secret`: before its first dot stands
/// their text, and after it the text of the signature, letter for letter.
pub open spec fn carries(secret: Seq<char>, token: Seq<char>, bytes: Seq<u8>) -> bool {
    split_at_dot(token) == Some((base64_url(bytes), signature(secret, bytes)))
}

/// A token splits into the parts that it was framed from, as long as the first
/// part holds no dot.
pub proof fn framed_splits(payload: Seq<char>, sig: Seq<char>)
    requires
        !payload.contains('.'),
    ensures
        split_at_dot(framed(payload, sig)) == Some((payload, sig)),
    decreases payload.len(),
{
    let token = framed(payload, sig);
    if payload.len() == 0 {
        assert(token.skip(1) == sig);
        assert(payload == Seq::<char>::empty());
    } else {
        assert(payload.contains(payload[0]));
        let rest = payload.skip(1);
        assert(!rest.contains('.')) by {
            if rest.contains('.') {
                let k = rest.index_of('.');
                assert(payload[k + 1] == '.');
            }
        }
        framed_splits(rest, sig);
        assert(token.skip(1) == framed(rest, sig));
        assert(seq![token[0]] + rest == payload);
    }
}

/// Whatever two parts a token splits into, framing them gives the token back,
/// and the first of them holds no dot.
pub proof fn split_frames(token: Seq<char>)
    ensures
        split_at_dot(token) matches Some((payload, sig)) ==> framed(payload, sig) == token
            && !payload.contains('.'),
        split_at_dot(token) is None <==> !token.contains('.'),
    decreases token.len(),
{
    if token.len() == 0 {
    } else if token[0] == '.' {
        assert(framed(Seq::empty(), token.skip(1)) == token);
    } else {
        let rest = token.skip(1);
        split_frames(rest);
        assert(token == seq![token[0]] + rest);
        if rest.contains('.') {
            let k = rest.index_of('.');
            assert(token[k + 1] == '.');
        }
        if token.contains('.') {
            let k = token.index_of('.');
            assert(rest[k - 1] == '.');
        }
        if let Some((payload, sig)) = split_at_dot(rest) {
            let whole = seq![token[0]] + payload;
            assert(framed(whole, sig) == seq![token[0]] + framed(payload, sig));
            if whole.contains('.') {
                let k = whole.index_of('.');
                assert(payload[k - 1] == '.');
            }
        }
    }
}

/// The minted token carries its bytes, and no other token does: change, lengthen or
/// pad either part of it, and it carries them no more.
pub proof fn only_the_minted_token_carries(secret: Seq<char>, token: Seq<char>, bytes: Seq<u8>)
    ensures
        carries(secret, token, bytes) <==> token == minted(secret, bytes),
{
    split_frames(token);
    base64_is_url_safe(bytes);
    framed_splits(base64_url(bytes), signature(secret, bytes));
}

/// A token carries one payload at most, under any secrets.
pub proof fn token_carries_one_payload(
    secret: Seq<char>,
    other_secret: Seq<char>,
    token: Seq<char>,
    bytes: Seq<u8>,
    other: Seq<u8>,
)
    requires
        carries(secret, token, bytes),
        carries(other_secret, token, other),
    ensures
        bytes == other,
{
    base64_is_injective(bytes, other);
}

/// The token of two parts.
pub fn frame_token(payload: &str, sig: &str) -> (r: String)
    ensures
        r@ == framed(payload@, sig@),
{
    let mut r = text::owned(payload);
    r.push('.');
    r.append(sig);
    r
}

/// The two parts of a token: `None` where it holds no dot.
pub fn split_token(token: &str) -> (r: Option<(String, String)>)
    ensures
        match r {
            Some((payload, sig)) => split_at_dot(token@) == Some((payload@, sig@)),
            None => split_at_dot(token@) is None,
        },
{
    let v = text::to_chars(token);
    let mut i: usize = 0;
    while i < v.len()
        invariant
            i <= v@.len(),
            v@ == token@,
            forall|k: int| 0 <= k < i ==> v@[k] != '.',
        decreases v.len() - i,
    {
        if v[i] == '.' {
            let payload = text::from_chars(&v, 0, i);
            let sig = text::from_chars(&v, i + 1, v.len());
            proof {
                framed_splits(payload@, sig@);
                assert(framed(payload@, sig@) == token@);
            }
            return Some((payload, sig));
        }
        i += 1;
    }
    proof {
        split_frames(token@);
    }
    None
}

/// The base64 signature of `data` under `secret`.
fn sign(secret: &str, data: &[u8]) -> (r: String)
    ensures
        r@ == base64_url(hmac_sha256(utf8::encode_utf8(secret@), data@)),
{
    let t = tag(secret.as_bytes(), data);
    encode_url(t.as_slice())
}

/// The token that carries `claims`, the serialised claims of a session, signed
/// with `secret`. Whoever holds the secret gets exactly these bytes back out
/// of it.
pub fn mint(secret: &str, claims: &[u8]) -> (r: String)
    requires
        encodable(claims@.len() as int),
    ensures
        r@ == minted(secret@, claims@),
        carries(secret@, r@, claims@),
        r@ == base64_url(claims@) + seq!['.'] + base64_url(
            hmac_sha256(utf8::encode_utf8(secret@), utf8::encode_utf8(base64_url(claims@))),
        ),
{
    let payload = encode_url(claims);
    let sig = sign(secret, payload.as_str().as_bytes());
    let r = frame_token(payload.as_str(), sig.as_str());
    proof {
        only_the_minted_token_carries(secret@, r@, claims@);
        token_is_payload_dot_tag(secret@, r@, claims@);
    }
    r
}

/// What a token yields once its parts have been looked at: the payload where the
/// signature holds, nothing where it does not.
pub fn accept_payload(signature_holds: bool, payload: Option<Vec<u8>>) -> (r: Option<Vec<u8>>)
    ensures
        r == (if signature_holds {
            payload
        } else {
            None
        }),
{
    if signature_holds {
        payload
    } else {
        None
    }
}

/// The serialised claims that a token carries, if `secret` signed it.
pub fn verify(secret: &str, token: &str) -> (r: Option<Vec<u8>>)
    ensures
        match r {
            Some(bytes) => carries(secret@, token@, bytes@) && forall|b: Seq<u8>| #[trigger]
                carries(secret@, token@, b) ==> b == bytes@,
            None => forall|b: Seq<u8>| !#[trigger] carries(secret@, token@, b),
        },
{
    let (payload, sig) = match split_token(token) {
        Some(parts) => parts,
        None => {
            return None;
        },
    };
    let expected = match decode_url(sig.as_str()) {
        Some(bytes) => bytes,
        None => {
            return None;
        },
    };
    let holds = tag_matches(
        secret.as_bytes(),
        payload.as_str().as_bytes(),
        expected.as_slice(),
    );
    let r = accept_payload(holds, decode_url(payload.as_str()));
    proof {
        assert forall|b: Seq<u8>| #[trigger] carries(secret@, token@, b) implies r is Some && b
            == r->0@ by {
            let due = hmac_sha256(utf8::encode_utf8(secret@), utf8::encode_utf8(payload@));
            assert(sig@ == base64_url(due));
            base64_is_injective(expected@, due);
            if let Some(bytes) = r {
                token_carries_one_payload(secret@, secret@, token@, b, bytes@);
            }
        }
    }
    r
}

/// The claims, unless there are none or they have expired by `now`.
pub open spec fn unexpired(parsed: Option<Claims>, now: u64) -> Option<Claims> {
    match parsed {
        Some(claims) => if claims.exp < now {
            None
        } else {
            Some(claims)
        },
        None => None,
    }
}

/// The claims of a token whose payload has been parsed: `None` where it did not
/// parse, and where the claims have expired by `now`.
pub fn accept_claims(parsed: Option<Claims>, now: u64) -> (r: Option<Claims>)
    ensures
        match parsed {
            Some(claims) => (r is Some <==> now <= claims.exp) && (r is Some ==> r == parsed),
            None => r is None,
        },
        r == unexpired(parsed, now),
{
    match parsed {
        Some(claims) => if claims.exp < now {
            None
        } else {
            Some(claims)
        },
        None => None,
    }
}

/// `parse` reads these bytes as `parsed`, and as nothing else.
pub open spec fn reads_as<F: Fn(&[u8]) -> Option<Claims>>(
    parse: F,
    bytes: Seq<u8>,
    parsed: Option<Claims>,
) -> bool {
    forall|b: &[u8], out: Option<Claims>|
        b@ == bytes && #[trigger] call_ensures(parse, (b,), out) ==> out == parsed
}

/// The claims that a token proves at a time, if it proves any, where `parse` reads
/// claims out of what a token carries. A token that carries the serialised form of
/// some claims proves them up to their last second and never after.
pub fn verify_at<F: Fn(&[u8]) -> Option<Claims>>(
    secret: &str,
    token: &str,
    parse: F,
    now: u64,
) -> (r: Option<Claims>)
    requires
        forall|b: &[u8]| #[trigger] call_requires(parse, (b,)),
    ensures
        forall|bytes: Seq<u8>, parsed: Option<Claims>| #[trigger]
            carries(secret@, token@, bytes) && #[trigger] reads_as(parse, bytes, parsed) ==> r
                == unexpired(parsed, now),
        forall|bytes: Seq<u8>, claims: Claims| #[trigger]
            carries(secret@, token@, bytes) && #[trigger] reads_as(parse, bytes, Some(claims)) ==> r
                == (if now <= claims.exp {
                Some(claims)
            } else {
                None
            }),
        forall|bytes: Seq<u8>| #[trigger]
            carries(secret@, token@, bytes) ==> exists|b: &[u8], parsed: Option<Claims>|
                {
                    &&& b@ == bytes
                    &&& #[trigger] call_ensures(parse, (b,), parsed)
                    &&& r == (if parsed is Some && now <= parsed->0.exp {
                        parsed
                    } else {
                        None
                    })
                },
        (forall|bytes: Seq<u8>| !#[trigger] carries(secret@, token@, bytes)) ==> r is None,
        r matches Some(claims) ==> claims.exp >= now && exists|b: &[u8]| #[trigger]
            carries(secret@, token@, b@) && call_ensures(parse, (b,), Some(claims)),
{
    match verify(secret, token) {
        Some(payload) => {
            let ghost bytes = payload@;
            let b = payload.as_slice();
            let parsed = parse(b);
            let r = accept_claims(parsed, now);
            proof {
                assert(carries(secret@, token@, b@));
                assert forall|other: Seq<u8>, read: Option<Claims>| #[trigger]
                    carries(secret@, token@, other) && #[trigger] reads_as(
                        parse,
                        other,
                        read,
                    ) implies r == unexpired(read, now) by {
                    assert(other == bytes);
                    assert(call_ensures(parse, (b,), parsed));
                }
                assert forall|other: Seq<u8>| #[trigger]
                    carries(secret@, token@, other) implies exists|c: &[u8], read: Option<Claims>|
                    {
                        &&& c@ == other
                        &&& #[trigger] call_ensures(parse, (c,), read)
                        &&& r == (if read is Some && now <= read->0.exp {
                            read
                        } else {
                            None
                        })
                    } by {
                    assert(other == bytes);
                    assert(b@ == other && call_ensures(parse, (b,), parsed));
                }
            }
            r
        },
        None => None,
    }
}

/// The claims that a token proves as the clock stands.
pub fn verify_now<F: Fn(&[u8]) -> Option<Claims>>(secret: &str, token: &str, parse: F) -> (r: Option<
    Claims,
>)
    requires
        forall|b: &[u8]| #[trigger] call_requires(parse, (b,)),
    ensures
        forall|bytes: Seq<u8>, parsed: Option<Claims>| #[trigger]
            carries(secret@, token@, bytes) && #[trigger] reads_as(parse, bytes, parsed)
                ==> exists|now: u64| r == #[trigger] unexpired(parsed, now),
        (forall|bytes: Seq<u8>| !#[trigger] carries(secret@, token@, bytes)) ==> r is None,
        r matches Some(claims) ==> exists|b: &[u8]| #[trigger] carries(secret@, token@, b@)
            && call_ensures(parse, (b,), Some(claims)),
{
    let now = now_secs();
    verify_at(secret, token, parse, now)
}

/// For how many more seconds the claims hold, seen from `now`.
pub fn expires_in(claims: &Claims, now: u64) -> (r: u64)
    ensures
        r == (if claims.exp > now {
            (claims.exp - now) as u64
        } else {
            0
        }),
{
    claims.exp.saturating_sub(now)
}

/// An identifier of `bytes` random bytes, in hexadecimal.
pub fn random_id(bytes: usize) -> (r: String)
    requires
        bytes <= isize::MAX,
    ensures
        exists|random: Seq<u8>| random.len() == bytes && r@ == #[trigger] config::hex_text(random),
{
    let buf = random_bytes(bytes);
    config::hex(buf.as_slice())
}

/// Claims are proved up to their last second and never after, whatever else they say, and
/// where there are none, none are proved.
pub proof fn claims_hold_until_they_expire(claims: Claims, now: u64)
    ensures
        now <= claims.exp ==> unexpired(Some(claims), now) == Some(claims),
        now > claims.exp ==> unexpired(Some(claims), now) is None,
        unexpired(None, now) is None,
{
}

/// A token carries some bytes exactly where it is their text, a dot, and the text of the tag
/// that the secret gives for all of that text.
pub proof fn token_is_payload_dot_tag(secret: Seq<char>, token: Seq<char>, bytes: Seq<u8>)
    ensures
        carries(secret, token, bytes) <==> token == base64_url(bytes) + seq!['.'] + base64_url(
            hmac_sha256(utf8::encode_utf8(secret), utf8::encode_utf8(base64_url(bytes))),
        ),
{
    only_the_minted_token_carries(secret, token, bytes);
    let payload = base64_url(bytes);
    assert(payload.push('.') + signature(secret, bytes) == payload + seq!['.'] + signature(
        secret,
        bytes,
    ));
}

} // verus!
