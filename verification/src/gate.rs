//! Access gate: the per-request authorization check run before any
//! business logic. Every token-level failure is collapsed into a single
//! `Unauthorized` rejection whose message never reveals which permission
//! was being checked.

use vstd::prelude::*;
use crate::resolver::resolve;
use crate::store::{str_eq, Store};
use crate::token::{bearer_token, decode, spec_bearer_token, spec_decode, Claim, TokenError};

verus! {

/// Rejection raised by the access gate, carrying the reason shown to the
/// caller.
pub struct Unauthorized {
    pub error_message: String,
}

/// Reason given whenever the credentials themselves are unusable: header
/// missing, not a bearer header, token malformed, expired or forged.
pub open spec fn invalid_credentials_msg() -> Seq<char> {
    "invalid or missing credentials"@
}

/// Reason given when the credentials are good but the resolved permission
/// set lacks the required permission.
pub open spec fn insufficient_permission_msg(required: Seq<char>) -> Seq<char> {
    "insufficient permission: "@ + required
}

/// View of an optional `Authorization` header value.
pub open spec fn header_view(header: Option<&str>) -> Option<Seq<char>> {
    match header {
        Some(h) => Some(h@),
        None => None,
    }
}

/// The claim a request's `Authorization` header yields under `key` at
/// clock reading `now`: the header must be present, carry the `Bearer `
/// prefix, and hold a token that decodes and verifies.
pub open spec fn spec_gate_claim(key: Seq<char>, header: Option<Seq<char>>, now: u64) -> Result<
    Claim,
    TokenError,
> {
    match header {
        None => Err(TokenError::MalformedToken),
        Some(h) => match spec_bearer_token(h) {
            None => Err(TokenError::MalformedToken),
            Some(t) => spec_decode(key, t, now),
        },
    }
}

/// A header built as `Bearer ` plus a token encoded under `key` yields the
/// encoded claim while the clock reading lies inside the validity window —
/// so `authorize` admits its subject whenever the subject's role grants
/// the required permission — and yields expiry once the window has passed,
/// whatever the subject's permissions.
pub proof fn lemma_bearer_header_round_trip(key: Seq<char>, c: Claim, now: u64)
    ensures
        now < c.expires_at ==> spec_gate_claim(
            key,
            Some("Bearer "@ + crate::token::spec_token(key, c)),
            now,
        ) == Ok::<Claim, TokenError>(c),
        now >= c.expires_at ==> spec_gate_claim(
            key,
            Some("Bearer "@ + crate::token::spec_token(key, c)),
            now,
        ) == Err::<Claim, TokenError>(TokenError::ExpiredToken),
{
    let t = crate::token::spec_token(key, c);
    let h = "Bearer "@ + t;
    reveal_strlit("Bearer ");
    assert(h.len() >= 7);
    assert(h.subrange(0, 7) =~= "Bearer "@);
    assert(h.subrange(7, h.len() as int) =~= t);
    crate::token::lemma_token_round_trip(key, c, now);
}

/// Admits or rejects one request. Admits exactly when the header carries a
/// valid, unexpired token whose subject holds `required`, and then forwards
/// the subject user id; rejects any credential failure with one fixed
/// message, and a missing permission with a message naming it.
pub fn authorize(store: &Store, key: &str, now: u64, header: Option<&str>, required: &str) -> (r:
    Result<u64, Unauthorized>)
    requires
        store@.wf(),
    ensures
        match spec_gate_claim(key@, header_view(header), now) {
            Ok(c) => if store@.user_grants(c.subject, required@) {
                r matches Ok(uid) && uid == c.subject
            } else {
                r matches Err(rej) && rej.error_message@ == insufficient_permission_msg(required@)
            },
            Err(_) => r matches Err(rej) && rej.error_message@ == invalid_credentials_msg(),
        },
{
    let token = match header {
        Some(h) => match bearer_token(h) {
            Some(t) => t,
            None => {
                return Err(Unauthorized { error_message: "invalid or missing credentials".to_owned() });
            },
        },
        None => {
            return Err(Unauthorized { error_message: "invalid or missing credentials".to_owned() });
        },
    };
    let claim = match decode(key, token, now) {
        Ok(c) => c,
        Err(_) => {
            return Err(Unauthorized { error_message: "invalid or missing credentials".to_owned() });
        },
    };
    let perms = resolve(store, claim.subject);
    let mut found = false;
    let mut i: usize = 0;
    while i < perms.len()
        invariant
            0 <= i <= perms@.len(),
            found ==> exists|k: int| 0 <= k < perms@.len() && #[trigger] perms@[k]@ == required@,
            !found ==> forall|k: int| 0 <= k < i ==> #[trigger] perms@[k]@ != required@,
        decreases perms@.len() - i,
    {
        if str_eq(perms[i].as_str(), required) {
            found = true;
        }
        i = i + 1;
    }
    if found {
        proof {
            let k = choose|k: int|
                0 <= k < perms@.len() && #[trigger] perms@[k]@ == required@;
            assert(store@.user_grants(claim.subject, perms@[k]@));
        }
        Ok(claim.subject)
    } else {
        proof {
            if store@.user_grants(claim.subject, required@) {
                let k = choose|k: int|
                    0 <= k < perms@.len() && #[trigger] perms@[k]@ == required@;
                assert(false);
            }
        }
        let mut m = "insufficient permission: ".to_owned();
        m.append(required);
        Err(Unauthorized { error_message: m })
    }
}

} // verus!
