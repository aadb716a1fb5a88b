//! Credential codec: bearer tokens carrying a signed claim.
//!
//! A token is four decimal fields separated by dots:
//! `<subject>.<issued_at>.<expires_at>.<tag>`, where the tag authenticates
//! the first three fields under a signing key. Decoding verifies the tag
//! and the expiry against the supplied clock reading.

use vstd::prelude::*;
use crate::decimal::{all_digits, dec_digits, digit_val, is_digit, lemma_dec_digits, parse_dec,
    u64_to_dec, val};

verus! {

/// Verified, decoded content of a bearer token: the subject user and the
/// validity window.
#[derive(PartialEq, Eq, Structural, Clone, Copy, Debug)]
pub struct Claim {
    pub subject: u64,
    pub issued_at: u64,
    pub expires_at: u64,
}

/// Why a token was refused.
#[derive(PartialEq, Eq, Structural, Clone, Copy, Debug)]
pub enum TokenError {
    /// The token (or the header carrying it) does not parse.
    MalformedToken,
    /// The validity window has passed.
    ExpiredToken,
    /// The tag does not match the payload under the signing key.
    InvalidSignature,
}

/// Modulus of the authentication tag.
pub const TAG_MODULUS: u64 = 0x7fffffff;

/// One step of the tag computation.
pub open spec fn tag_step(h: int, c: char) -> int {
    (h * 31 + c as int) % (TAG_MODULUS as int)
}

/// Tag over a character sequence, folded left to right.
pub open spec fn tag_chars(s: Seq<char>) -> int
    decreases s.len(),
{
    if s.len() == 0 {
        7
    } else {
        tag_step(tag_chars(s.drop_last()), s.last())
    }
}

/// Authentication tag of `payload` under `key`.
pub open spec fn spec_tag(key: Seq<char>, payload: Seq<char>) -> int {
    tag_chars(key + payload)
}

/// The tag always lies below the modulus.
pub proof fn lemma_tag_range(s: Seq<char>)
    ensures
        0 <= tag_chars(s) < TAG_MODULUS,
    decreases s.len(),
{
    if s.len() > 0 {
        lemma_tag_range(s.drop_last());
    }
}

/// Computes the tag of `payload` under `key`.
fn compute_tag(key: &str, payload: &str) -> (t: u64)
    ensures
        t == spec_tag(key@, payload@),
{
    let kn = key.unicode_len();
    let pn = payload.unicode_len();
    let mut h: u64 = 7;
    let mut i: usize = 0;
    proof {
        assert(key@.take(0) =~= Seq::<char>::empty());
    }
    while i < kn
        invariant
            i <= kn == key@.len(),
            h == tag_chars(key@.take(i as int)),
            0 <= h < TAG_MODULUS,
        decreases kn - i,
    {
        let c = key.get_char(i);
        proof {
            assert(key@.take(i + 1).drop_last() =~= key@.take(i as int));
            assert(key@.take(i + 1).last() == key@[i as int]);
        }
        h = (h * 31 + c as u32 as u64) % TAG_MODULUS;
        i = i + 1;
    }
    proof {
        assert(key@.take(kn as int) =~= key@);
        assert((key@ + payload@.take(0)) =~= key@);
    }
    let mut j: usize = 0;
    while j < pn
        invariant
            j <= pn == payload@.len(),
            h == tag_chars(key@ + payload@.take(j as int)),
            0 <= h < TAG_MODULUS,
        decreases pn - j,
    {
        let c = payload.get_char(j);
        proof {
            assert((key@ + payload@.take(j + 1)).drop_last() =~= key@ + payload@.take(j as int));
            assert((key@ + payload@.take(j + 1)).last() == payload@[j as int]);
        }
        h = (h * 31 + c as u32 as u64) % TAG_MODULUS;
        j = j + 1;
    }
    proof {
        assert(key@ + payload@.take(pn as int) =~= key@ + payload@);
    }
    h
}

/// The signed part of a token: the three claim fields in decimal.
pub open spec fn spec_payload(c: Claim) -> Seq<char> {
    dec_digits(c.subject as int) + seq!['.'] + dec_digits(c.issued_at as int) + seq!['.']
        + dec_digits(c.expires_at as int)
}

/// The full wire form of a claim under `key`.
pub open spec fn spec_token(key: Seq<char>, c: Claim) -> Seq<char> {
    spec_payload(c) + seq!['.'] + dec_digits(spec_tag(key, spec_payload(c)))
}

/// Encodes `claim` as a token signed with `key`.
pub fn encode(key: &str, claim: &Claim) -> (t: String)
    ensures
        t@ == spec_token(key@, *claim),
{
    proof {
        reveal_strlit(".");
        assert("."@ =~= seq!['.']);
    }
    let mut payload = u64_to_dec(claim.subject);
    payload.append(".");
    payload.append(u64_to_dec(claim.issued_at).as_str());
    payload.append(".");
    payload.append(u64_to_dec(claim.expires_at).as_str());
    proof {
        assert(payload@ =~= spec_payload(*claim));
        lemma_tag_range(key@ + payload@);
    }
    let tag = compute_tag(key, payload.as_str());
    let mut t = payload;
    t.append(".");
    t.append(u64_to_dec(tag).as_str());
    proof {
        assert(t@ =~= spec_token(key@, *claim));
    }
    t
}

/// Index of the first dot at or after `from`, or the length if there is
/// none.
pub open spec fn field_end(s: Seq<char>, from: int) -> int
    decreases s.len() - from,
{
    if from >= s.len() {
        s.len() as int
    } else if s[from] == '.' {
        from
    } else {
        field_end(s, from + 1)
    }
}

/// Where the first dot search lands: between `from` and the length, on a
/// dot if not at the end, with no dot before it.
pub proof fn lemma_field_end(s: Seq<char>, from: int)
    requires
        0 <= from <= s.len(),
    ensures
        from <= field_end(s, from) <= s.len(),
        field_end(s, from) < s.len() ==> s[field_end(s, from)] == '.',
        forall|i: int| from <= i < field_end(s, from) ==> s[i] != '.',
    decreases s.len() - from,
{
    if from < s.len() && s[from] != '.' {
        lemma_field_end(s, from + 1);
    }
}

/// If `s` has no dot in `from..k`, and `k` is the length or a dot, the
/// search from `from` lands on `k`.
pub proof fn lemma_field_end_at(s: Seq<char>, from: int, k: int)
    requires
        0 <= from <= k <= s.len(),
        forall|i: int| from <= i < k ==> s[i] != '.',
        k == s.len() || s[k] == '.',
    ensures
        field_end(s, from) == k,
    decreases k - from,
{
    if from < k {
        lemma_field_end_at(s, from + 1, k);
    }
}

/// A token field: non-empty, all digits, value within `u64`.
pub open spec fn valid_field(f: Seq<char>) -> bool {
    f.len() > 0 && all_digits(f) && val(f) <= u64::MAX
}

/// What decoding a token under `key` at clock reading `now` yields. This
/// is the reference meaning of the wire format: four dot-separated decimal
/// fields, the tag checked before the expiry.
pub open spec fn spec_decode(key: Seq<char>, token: Seq<char>, now: u64) -> Result<
    Claim,
    TokenError,
> {
    let n = token.len() as int;
    let e0 = field_end(token, 0);
    let e1 = field_end(token, e0 + 1);
    let e2 = field_end(token, e1 + 1);
    let e3 = field_end(token, e2 + 1);
    if e0 >= n || e1 >= n || e2 >= n || e3 < n {
        Err(TokenError::MalformedToken)
    } else {
        let f0 = token.subrange(0, e0);
        let f1 = token.subrange(e0 + 1, e1);
        let f2 = token.subrange(e1 + 1, e2);
        let f3 = token.subrange(e2 + 1, n);
        if !(valid_field(f0) && valid_field(f1) && valid_field(f2) && valid_field(f3)) {
            Err(TokenError::MalformedToken)
        } else if val(f3) != spec_tag(key, token.subrange(0, e2)) {
            Err(TokenError::InvalidSignature)
        } else if now >= val(f2) {
            Err(TokenError::ExpiredToken)
        } else {
            Ok(
                Claim {
                    subject: val(f0) as u64,
                    issued_at: val(f1) as u64,
                    expires_at: val(f2) as u64,
                },
            )
        }
    }
}

/// Finds the first dot at or after `from`.
fn find_dot(s: &str, from: usize) -> (e: usize)
    requires
        from <= s@.len(),
    ensures
        e == field_end(s@, from as int),
        from <= e <= s@.len(),
{
    let n = s.unicode_len();
    let mut i: usize = from;
    while i < n
        invariant
            from <= i <= n == s@.len(),
            field_end(s@, from as int) == field_end(s@, i as int),
        decreases n - i,
    {
        let c = s.get_char(i);
        if c == '.' {
            proof {
                lemma_field_end(s@, from as int);
            }
            return i;
        }
        i = i + 1;
    }
    proof {
        lemma_field_end(s@, from as int);
    }
    i
}

/// Decodes and verifies `token` with `key` against clock reading `now`,
/// returning exactly what the wire-format meaning assigns to it.
pub fn decode(key: &str, token: &str, now: u64) -> (r: Result<Claim, TokenError>)
    ensures
        r == spec_decode(key@, token@, now),
{
    let n = token.unicode_len();
    let e0 = find_dot(token, 0);
    if e0 >= n {
        return Err(TokenError::MalformedToken);
    }
    let e1 = find_dot(token, e0 + 1);
    if e1 >= n {
        return Err(TokenError::MalformedToken);
    }
    let e2 = find_dot(token, e1 + 1);
    if e2 >= n {
        return Err(TokenError::MalformedToken);
    }
    let e3 = find_dot(token, e2 + 1);
    if e3 < n {
        return Err(TokenError::MalformedToken);
    }
    let v0 = parse_dec(token, 0, e0);
    let v1 = parse_dec(token, e0 + 1, e1);
    let v2 = parse_dec(token, e1 + 1, e2);
    let v3 = parse_dec(token, e2 + 1, n);
    match (v0, v1, v2, v3) {
        (Some(subject), Some(issued_at), Some(expires_at), Some(tagv)) => {
            let payload = token.substring_char(0, e2);
            let tag = compute_tag(key, payload);
            if tagv != tag {
                Err(TokenError::InvalidSignature)
            } else if now >= expires_at {
                Err(TokenError::ExpiredToken)
            } else {
                Ok(Claim { subject, issued_at, expires_at })
            }
        },
        _ => Err(TokenError::MalformedToken),
    }
}

/// Decoding an encoded token with the same key returns the claim unchanged
/// while the clock reading lies inside the validity window, and reports
/// expiry — whatever the claim's permissions would have been — once it has
/// passed.
pub proof fn lemma_token_round_trip(key: Seq<char>, c: Claim, now: u64)
    ensures
        now < c.expires_at ==> spec_decode(key, spec_token(key, c), now) == Ok::<
            Claim,
            TokenError,
        >(c),
        now >= c.expires_at ==> spec_decode(key, spec_token(key, c), now) == Err::<
            Claim,
            TokenError,
        >(TokenError::ExpiredToken),
{
    let ds = dec_digits(c.subject as int);
    let di = dec_digits(c.issued_at as int);
    let de = dec_digits(c.expires_at as int);
    let p = spec_payload(c);
    let tag = spec_tag(key, p);
    let dt = dec_digits(tag);
    let t = spec_token(key, c);
    lemma_dec_digits(c.subject as int);
    lemma_dec_digits(c.issued_at as int);
    lemma_dec_digits(c.expires_at as int);
    lemma_tag_range(key + p);
    lemma_dec_digits(tag);
    let n = t.len() as int;
    let k0 = ds.len() as int;
    let k1 = k0 + 1 + di.len();
    let k2 = k1 + 1 + de.len();
    assert(n == k2 + 1 + dt.len());
    assert forall|i: int| 0 <= i < k0 implies t[i] != '.' by {
        assert(t[i] == ds[i]);
        assert(is_digit(ds[i]));
    }
    assert(t[k0] == '.');
    lemma_field_end_at(t, 0, k0);
    assert forall|i: int| k0 + 1 <= i < k1 implies t[i] != '.' by {
        assert(t[i] == di[i - (k0 + 1)]);
        assert(is_digit(di[i - (k0 + 1)]));
    }
    assert(t[k1] == '.');
    lemma_field_end_at(t, k0 + 1, k1);
    assert forall|i: int| k1 + 1 <= i < k2 implies t[i] != '.' by {
        assert(t[i] == de[i - (k1 + 1)]);
        assert(is_digit(de[i - (k1 + 1)]));
    }
    assert(t[k2] == '.');
    lemma_field_end_at(t, k1 + 1, k2);
    assert forall|i: int| k2 + 1 <= i < n implies t[i] != '.' by {
        assert(t[i] == dt[i - (k2 + 1)]);
        assert(is_digit(dt[i - (k2 + 1)]));
    }
    lemma_field_end_at(t, k2 + 1, n);
    assert(t.subrange(0, k0) =~= ds);
    assert(t.subrange(k0 + 1, k1) =~= di);
    assert(t.subrange(k1 + 1, k2) =~= de);
    assert(t.subrange(k2 + 1, n) =~= dt);
    assert(t.subrange(0, k2) =~= p);
    assert(valid_field(ds));
    assert(valid_field(di));
    assert(valid_field(de));
    assert(valid_field(dt));
    assert(val(dt) == tag);
    assert(val(de) == c.expires_at);
    if now < c.expires_at {
        assert(spec_decode(key, t, now) == Ok::<Claim, TokenError>(
            Claim {
                subject: val(ds) as u64,
                issued_at: val(di) as u64,
                expires_at: val(de) as u64,
            },
        ));
    }
}

/// The token carried by an `Authorization` header, if the header has the
/// `Bearer ` prefix.
pub open spec fn spec_bearer_token(h: Seq<char>) -> Option<Seq<char>> {
    if h.len() >= 7 && h.subrange(0, 7) == "Bearer "@ {
        Some(h.subrange(7, h.len() as int))
    } else {
        None
    }
}

/// Strips the `Bearer ` prefix from an `Authorization` header value.
pub fn bearer_token(header: &str) -> (r: Option<&str>)
    ensures
        match r {
            Some(t) => spec_bearer_token(header@) == Some(t@),
            None => spec_bearer_token(header@) is None,
        },
{
    proof {
        reveal_strlit("Bearer ");
    }
    let prefix = "Bearer ";
    let n = header.unicode_len();
    if n < 7 {
        return None;
    }
    let mut i: usize = 0;
    while i < 7
        invariant
            0 <= i <= 7,
            n == header@.len() >= 7,
            prefix@ == "Bearer "@,
            prefix@.len() == 7,
            forall|j: int| 0 <= j < i ==> header@[j] == prefix@[j],
        decreases 7 - i,
    {
        let hc = header.get_char(i);
        let pc = prefix.get_char(i);
        if hc != pc {
            proof {
                assert(header@.subrange(0, 7) != "Bearer "@) by {
                    assert(header@.subrange(0, 7)[i as int] == header@[i as int]);
                }
            }
            return None;
        }
        i = i + 1;
    }
    proof {
        assert(header@.subrange(0, 7) =~= "Bearer "@);
    }
    Some(header.substring_char(7, n))
}

} // verus!
