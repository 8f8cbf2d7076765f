//! The authenticator: checks a request's `Proxy-Authorization` header
//! against the configured credentials.
//!
//! Authentication succeeds when no username is configured, or when the
//! header is present, carries the `Basic` scheme, and its Base64 payload
//! decodes to exactly `username:password`, the username being everything
//! before the first colon.

use vstd::prelude::*;
use vstd::slice::slice_subrange;
use base64::Engine;
use crate::bytes::{all_ascii, ascii_of, lit_bytes, bytes_eq};
use crate::header::{Header, hmodel, header_value, find_header};

verus! {

/// The configured proxy credentials. Either both fields are set or
/// neither is; with no username configured, authentication is disabled.
pub struct Credentials {
    pub username: Option<Vec<u8>>,
    pub password: Option<Vec<u8>>,
}

impl Credentials {
    /// Well-formedness: username and password are configured together.
    pub open spec fn wf(self) -> bool {
        self.username is Some <==> self.password is Some
    }

    /// True when a username is configured, so requests must authenticate.
    pub open spec fn auth_required(self) -> bool {
        self.username is Some
    }
}

/// What the standard, padded Base64 alphabet decodes `s` to: `Some`
/// exactly on well-formed encodings. The result depends on the input
/// bytes alone.
pub uninterp spec fn b64_decode_of(s: Seq<u8>) -> Option<Seq<u8>>;

/// Relies on `base64::engine::general_purpose::STANDARD.decode`
/// (`base64::Engine::decode`): decoding with the standard padded
/// alphabet, a function of the input bytes alone, returning `Ok` exactly
/// on well-formed encodings.
#[verifier::external_body]
fn b64_decode(s: &[u8]) -> (r: Option<Vec<u8>>)
    ensures
        match r {
            Some(d) => b64_decode_of(s@) == Some(d@),
            None => b64_decode_of(s@) is None,
        },
{
    match base64::engine::general_purpose::STANDARD.decode(s) {
        Ok(d) => Some(d),
        Err(_) => None,
    }
}

/// The header name whose value carries the proxy credentials.
pub open spec fn pa_name() -> Seq<u8> {
    ascii_of("proxy-authorization"@)
}

/// The scheme prefix a credential-carrying header value must start with.
pub open spec fn basic_prefix() -> Seq<u8> {
    ascii_of("Basic "@)
}

/// The payload a client must present for username `u` and password `p`.
pub open spec fn expected_payload(u: Seq<u8>, p: Seq<u8>) -> Seq<u8> {
    u + seq![58u8] + p
}

/// True when decoded payload `d` names exactly the credentials `(u, p)`:
/// `d` is `u`, a colon, then `p`, and `u` itself is colon-free, so the
/// split at the first colon of `d` yields `u` and `p` exactly.
pub open spec fn payload_matches(u: Seq<u8>, p: Seq<u8>, d: Seq<u8>) -> bool {
    &&& d == expected_payload(u, p)
    &&& forall|i: int| 0 <= i < u.len() ==> u[i] != 58
}

/// True when header value `v` authenticates against `(u, p)`: it starts
/// with `Basic ` and the rest decodes to exactly `u:p`.
pub open spec fn value_authenticates(v: Seq<u8>, u: Seq<u8>, p: Seq<u8>) -> bool {
    &&& v.len() >= 6
    &&& v.take(6) == basic_prefix()
    &&& match b64_decode_of(v.skip(6)) {
            Some(d) => payload_matches(u, p, d),
            None => false,
        }
}

/// The authenticator's contract: with no username configured every
/// request passes; otherwise the first `Proxy-Authorization` header must
/// authenticate against the configured pair.
pub open spec fn spec_authenticated(hs: Seq<(Seq<u8>, Seq<u8>)>, c: Credentials) -> bool {
    match (c.username, c.password) {
        (Some(u), Some(p)) => match header_value(hs, pa_name()) {
            Some(v) => value_authenticates(v, u@, p@),
            None => false,
        },
        _ => true,
    }
}

/// Checks that decoded payload `d` splits at its first colon into
/// exactly `user` and `pass`.
fn payload_check(d: &[u8], user: &[u8], pass: &[u8]) -> (r: bool)
    ensures
        r == payload_matches(user@, pass@, d@),
{
    let n = d.len();
    let mut k: usize = 0;
    while k < n && d[k as usize] != 58
        invariant
            n == d@.len(),
            k <= n,
            forall|j: int| 0 <= j < k ==> d@[j] != 58,
        decreases n - k,
    {
        k = k + 1;
    }
    if k == n {
        // No colon at all: the payload cannot be any `user:pass`.
        proof {
            if payload_matches(user@, pass@, d@) {
                assert(d@[user@.len() as int] == 58);
            }
        }
        return false;
    }
    let left = slice_subrange(d, 0, k);
    let right = slice_subrange(d, k + 1, n);
    let r = bytes_eq(left, user) && bytes_eq(right, pass);
    proof {
        if r {
            assert(d@ =~= expected_payload(user@, pass@));
        }
        if payload_matches(user@, pass@, d@) {
            // The first colon of `d` must sit right after `user`.
            assert(d@[user@.len() as int] == 58);
            assert(k == user@.len());
            assert(left@ =~= user@);
            assert(right@ =~= pass@);
        }
    }
    r
}

/// Decides whether the request with header list `headers` is
/// authenticated against `creds`, exactly as `spec_authenticated` says.
pub fn authenticate(headers: &Vec<Header>, creds: &Credentials) -> (r: bool)
    requires
        creds.wf(),
    ensures
        r == spec_authenticated(hmodel(headers@), *creds),
{
    let (user, pass) = match (&creds.username, &creds.password) {
        (Some(u), Some(p)) => (u, p),
        _ => {
            return true;
        },
    };
    proof {
        reveal_strlit("proxy-authorization");
        assert(all_ascii("proxy-authorization"@));
    }
    let name = lit_bytes("proxy-authorization");
    let value = match find_header(headers, name.as_slice()) {
        Some(v) => v,
        None => {
            return false;
        },
    };
    if value.len() < 6 {
        return false;
    }
    proof {
        reveal_strlit("Basic ");
        assert(all_ascii("Basic "@));
    }
    let prefix = lit_bytes("Basic ");
    if !bytes_eq(slice_subrange(value.as_slice(), 0, 6), prefix.as_slice()) {
        proof {
            assert(value@.subrange(0, 6) == value@.take(6));
        }
        return false;
    }
    proof {
        assert(value@.subrange(0, 6) == value@.take(6));
    }
    let encoded = slice_subrange(value.as_slice(), 6, value.len());
    proof {
        assert(encoded@ == value@.skip(6));
    }
    match b64_decode(encoded) {
        Some(decoded) => payload_check(decoded.as_slice(), user.as_slice(), pass.as_slice()),
        None => false,
    }
}

/// With no username configured, every request is authenticated,
/// whatever headers it carries.
pub proof fn lemma_no_credentials_always_authenticated(
    hs: Seq<(Seq<u8>, Seq<u8>)>,
    c: Credentials,
)
    requires
        c.wf(),
        !c.auth_required(),
    ensures
        spec_authenticated(hs, c),
{
}

/// A request whose `Proxy-Authorization` value is `Basic ` followed by
/// an encoding of exactly `username:password` is authenticated.
pub proof fn lemma_correct_credentials_accepted(
    hs: Seq<(Seq<u8>, Seq<u8>)>,
    c: Credentials,
    enc: Seq<u8>,
)
    requires
        c.wf(),
        c.username matches Some(u) && forall|i: int| 0 <= i < u@.len() ==> u@[i] != 58,
        (c.username matches Some(u) && c.password matches Some(p) && b64_decode_of(enc)
            == Some(expected_payload(u@, p@))),
        header_value(hs, pa_name()) == Some(basic_prefix() + enc),
    ensures
        spec_authenticated(hs, c),
{
    reveal_strlit("Basic ");
    let v = basic_prefix() + enc;
    assert(basic_prefix().len() == 6);
    assert(v.take(6) =~= basic_prefix());
    assert(v.skip(6) =~= enc);
}

/// When credentials are configured, a request whose header is missing,
/// whose value lacks the `Basic ` scheme, whose payload fails to decode,
/// or whose decoded payload differs anywhere from `username:password`
/// is rejected.
pub proof fn lemma_wrong_credentials_rejected(hs: Seq<(Seq<u8>, Seq<u8>)>, c: Credentials)
    requires
        c.wf(),
        c.auth_required(),
        header_value(hs, pa_name()) matches Some(v) ==> !(c.username matches Some(u)
            && c.password matches Some(p) && v.len() >= 6 && v.take(6) == basic_prefix()
            && b64_decode_of(v.skip(6)) == Some(expected_payload(u@, p@))),
    ensures
        !spec_authenticated(hs, c),
{
}

} // verus!
