//! The per-connection dispatcher: authenticates the request, routes it
//! by method (CONNECT tunnels, everything else is forwarded), resolves
//! the target, and rewrites the request head for the forward path. The
//! caller performs the socket work the decision names.

use vstd::prelude::*;
use crate::bytes::{all_ascii, ascii_of, lit_bytes, bytes_eq};
use crate::header::{Header, hmodel};
use crate::auth::{Credentials, spec_authenticated, authenticate};
use crate::target::{
    TargetAddress, ProxyError, spec_resolve_connect, resolve_connect, spec_parse_absolute,
    parse_absolute_uri,
};
use crate::rewrite::{rewritten_headers, rewrite_headers, spec_request_head};

verus! {

/// What a proxy session does with a request.
pub enum Decision {
    /// Respond 407 with the `Proxy-Authenticate` challenge and close;
    /// no target is contacted.
    RequireAuth,
    /// Open a TCP connection to `target`, acknowledge with
    /// `200 Connection Established`, then relay bytes both ways.
    Tunnel { target: TargetAddress },
    /// Open a TCP connection to `target`, send the rewritten request
    /// head (origin-form request line, `Host` header set to the target
    /// host), then relay the remaining bytes both ways.
    Forward { target: TargetAddress, origin_form: Vec<u8>, headers: Vec<Header> },
    /// Respond 400 and close; no target is contacted.
    BadTarget,
}

/// The CONNECT method token.
pub open spec fn connect_method() -> Seq<u8> {
    ascii_of("CONNECT"@)
}

/// The dispatcher's whole contract over a decision `d` for a request
/// with method `m`, target URI `u` and headers `hs` under credentials
/// `c`.
pub open spec fn decision_ok(
    m: Seq<u8>,
    u: Seq<u8>,
    hs: Seq<(Seq<u8>, Seq<u8>)>,
    c: Credentials,
    d: Decision,
) -> bool {
    &&& (d is RequireAuth <==> !spec_authenticated(hs, c))
    &&& (spec_authenticated(hs, c) && m == connect_method() ==> match spec_resolve_connect(u) {
        Some(hp) => d matches Decision::Tunnel { target } && target.host@ == hp.0 && target.port
            as int == hp.1,
        None => d is BadTarget,
    })
    &&& (spec_authenticated(hs, c) && m != connect_method() ==> match spec_parse_absolute(u) {
        Some(hpo) => d matches Decision::Forward { target, origin_form, headers }
            && target.host@ == hpo.0 && target.port as int == hpo.1 && origin_form@ == hpo.2
            && hmodel(headers@) == rewritten_headers(hs, hpo.0),
        None => d is BadTarget,
    })
}

/// Decides what to do with a request, exactly as `decision_ok` says:
/// unauthenticated requests are refused without contacting any target;
/// an authenticated CONNECT tunnels to its resolved authority; every
/// other authenticated request is forwarded with a rewritten head; a
/// target that does not resolve is refused.
pub fn route(method: &[u8], uri: &[u8], headers: &Vec<Header>, creds: &Credentials) -> (d:
    Decision)
    requires
        creds.wf(),
    ensures
        decision_ok(method@, uri@, hmodel(headers@), *creds, d),
{
    if !authenticate(headers, creds) {
        return Decision::RequireAuth;
    }
    proof {
        reveal_strlit("CONNECT");
        assert(all_ascii("CONNECT"@));
    }
    let connect = lit_bytes("CONNECT");
    if bytes_eq(method, connect.as_slice()) {
        match resolve_connect(uri) {
            Ok(target) => Decision::Tunnel { target },
            Err(_) => Decision::BadTarget,
        }
    } else {
        match parse_absolute_uri(uri) {
            Ok(ft) => {
                let out_headers = rewrite_headers(headers, ft.addr.host.as_slice());
                Decision::Forward {
                    target: ft.addr,
                    origin_form: ft.origin_form,
                    headers: out_headers,
                }
            },
            Err(_) => Decision::BadTarget,
        }
    }
}

/// The acknowledgment sent to the client once a tunnel's outbound
/// connection stands; after it the connection is a raw byte relay.
pub open spec fn connect_established_bytes() -> Seq<u8> {
    ascii_of("HTTP/1.1 200 Connection Established\r\n\r\n"@)
}

/// The 407 response: the client must authenticate to the `Proxy` realm.
pub open spec fn auth_required_bytes() -> Seq<u8> {
    ascii_of("HTTP/1.1 407 Proxy Authentication Required\r\nProxy-Authenticate: Basic realm=\"Proxy\"\r\nContent-Length: 0\r\nConnection: close\r\n\r\n"@)
}

/// The 400 response to a target that does not resolve.
pub open spec fn bad_target_bytes() -> Seq<u8> {
    ascii_of("HTTP/1.1 400 Bad Request\r\nContent-Length: 0\r\nConnection: close\r\n\r\n"@)
}

/// The 502 response when the outbound connection fails.
pub open spec fn upstream_failed_bytes() -> Seq<u8> {
    ascii_of("HTTP/1.1 502 Bad Gateway\r\nContent-Length: 0\r\nConnection: close\r\n\r\n"@)
}

/// Renders the tunnel acknowledgment.
pub fn connect_established_response() -> (r: Vec<u8>)
    ensures
        r@ == connect_established_bytes(),
{
    proof {
        reveal_strlit("HTTP/1.1 200 Connection Established\r\n\r\n");
        assert(all_ascii("HTTP/1.1 200 Connection Established\r\n\r\n"@));
    }
    lit_bytes("HTTP/1.1 200 Connection Established\r\n\r\n")
}

/// Renders the response a session error is answered with: 407 for a
/// failed authentication, 400 for a bad target, 502 for a failed
/// outbound connection. A transport error during relay gets no
/// response: both sockets just close.
pub fn error_response(e: &ProxyError) -> (r: Option<Vec<u8>>)
    ensures
        match e {
            ProxyError::AuthRequired => r matches Some(v) && v@ == auth_required_bytes(),
            ProxyError::InvalidTarget => r matches Some(v) && v@ == bad_target_bytes(),
            ProxyError::UpstreamConnectFailed => r matches Some(v) && v@
                == upstream_failed_bytes(),
            ProxyError::TransportError => r is None,
        },
{
    match e {
        ProxyError::AuthRequired => {
            proof {
                reveal_strlit(
                    "HTTP/1.1 407 Proxy Authentication Required\r\nProxy-Authenticate: Basic realm=\"Proxy\"\r\nContent-Length: 0\r\nConnection: close\r\n\r\n",
                );
                assert(all_ascii(
                    "HTTP/1.1 407 Proxy Authentication Required\r\nProxy-Authenticate: Basic realm=\"Proxy\"\r\nContent-Length: 0\r\nConnection: close\r\n\r\n"@,
                ));
            }
            Some(
                lit_bytes(
                    "HTTP/1.1 407 Proxy Authentication Required\r\nProxy-Authenticate: Basic realm=\"Proxy\"\r\nContent-Length: 0\r\nConnection: close\r\n\r\n",
                ),
            )
        },
        ProxyError::InvalidTarget => {
            proof {
                reveal_strlit(
                    "HTTP/1.1 400 Bad Request\r\nContent-Length: 0\r\nConnection: close\r\n\r\n",
                );
                assert(all_ascii(
                    "HTTP/1.1 400 Bad Request\r\nContent-Length: 0\r\nConnection: close\r\n\r\n"@,
                ));
            }
            Some(
                lit_bytes(
                    "HTTP/1.1 400 Bad Request\r\nContent-Length: 0\r\nConnection: close\r\n\r\n",
                ),
            )
        },
        ProxyError::UpstreamConnectFailed => {
            proof {
                reveal_strlit(
                    "HTTP/1.1 502 Bad Gateway\r\nContent-Length: 0\r\nConnection: close\r\n\r\n",
                );
                assert(all_ascii(
                    "HTTP/1.1 502 Bad Gateway\r\nContent-Length: 0\r\nConnection: close\r\n\r\n"@,
                ));
            }
            Some(
                lit_bytes(
                    "HTTP/1.1 502 Bad Gateway\r\nContent-Length: 0\r\nConnection: close\r\n\r\n",
                ),
            )
        },
        ProxyError::TransportError => None,
    }
}

/// An unauthenticated request is never tunneled or forwarded: its only
/// decision is to demand credentials, so no target is contacted.
pub proof fn lemma_unauthenticated_never_contacts_target(
    m: Seq<u8>,
    u: Seq<u8>,
    hs: Seq<(Seq<u8>, Seq<u8>)>,
    c: Credentials,
    d: Decision,
)
    requires
        decision_ok(m, u, hs, c, d),
        !spec_authenticated(hs, c),
    ensures
        d is RequireAuth,
{
}

/// An authenticated CONNECT whose authority resolves is tunneled to
/// exactly the resolved host and port, and to nothing else.
pub proof fn lemma_connect_tunnels_to_resolved_target(
    m: Seq<u8>,
    u: Seq<u8>,
    hs: Seq<(Seq<u8>, Seq<u8>)>,
    c: Credentials,
    d: Decision,
    host: Seq<u8>,
    port: int,
)
    requires
        decision_ok(m, u, hs, c, d),
        spec_authenticated(hs, c),
        m == connect_method(),
        spec_resolve_connect(u) == Some((host, port)),
    ensures
        d matches Decision::Tunnel { target } && target.host@ == host && target.port as int
            == port,
{
}

/// A CONNECT whose authority does not resolve (a missing port, say) is
/// answered with the 400-class refusal: the decision names no target,
/// so no outbound connection is attempted.
pub proof fn lemma_malformed_connect_refused(
    m: Seq<u8>,
    u: Seq<u8>,
    hs: Seq<(Seq<u8>, Seq<u8>)>,
    c: Credentials,
    d: Decision,
)
    requires
        decision_ok(m, u, hs, c, d),
        spec_authenticated(hs, c),
        m == connect_method(),
        spec_resolve_connect(u) is None,
    ensures
        d is BadTarget,
        !(d is Tunnel),
        !(d is Forward),
{
}

/// An authenticated forward goes to the URI's host and default-80 port,
/// and the wire bytes of its rewritten head are exactly the origin-form
/// request line followed by the canonical `Host` header and the kept
/// request headers: what a hand-rewritten request would carry.
pub proof fn lemma_forward_sends_rewritten_head(
    m: Seq<u8>,
    u: Seq<u8>,
    hs: Seq<(Seq<u8>, Seq<u8>)>,
    c: Credentials,
    d: Decision,
    host: Seq<u8>,
    port: int,
    origin: Seq<u8>,
)
    requires
        decision_ok(m, u, hs, c, d),
        spec_authenticated(hs, c),
        m != connect_method(),
        spec_parse_absolute(u) == Some((host, port, origin)),
    ensures
        d matches Decision::Forward { target, origin_form, headers } && target.host@ == host
            && target.port as int == port && origin_form@ == origin && spec_request_head(
            m,
            origin_form@,
            hmodel(headers@),
        ) == spec_request_head(m, origin, rewritten_headers(hs, host)),
{
}

} // verus!
