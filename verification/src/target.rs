//! The target resolver: extracts the outbound `host:port` from a CONNECT
//! authority or from an absolute request URI, and the origin-form
//! request target used when forwarding.

use vstd::prelude::*;
use vstd::slice::slice_subrange;
use vstd::slice::slice_to_vec;

verus! {

/// The outbound address a session connects to.
pub struct TargetAddress {
    pub host: Vec<u8>,
    pub port: u16,
}

/// The error kinds a proxy session can end with.
#[derive(Debug, PartialEq, Eq, Structural)]
pub enum ProxyError {
    /// Missing or invalid credentials; answered with 407.
    AuthRequired,
    /// Unparsable CONNECT authority or request URI; answered with 400.
    InvalidTarget,
    /// The target could not be connected to; answered with 502.
    UpstreamConnectFailed,
    /// An I/O failure during relay; both sockets are closed silently.
    TransportError,
}

/// ASCII decimal digit.
pub open spec fn is_digit(c: u8) -> bool {
    48 <= c <= 57
}

/// The number the decimal digit string `s` denotes.
pub open spec fn digits_val(s: Seq<u8>) -> int
    decreases s.len(),
{
    if s.len() == 0 {
        0
    } else {
        digits_val(s.drop_last()) * 10 + (s.last() - 48)
    }
}

/// A well-formed port string: non-empty, all digits, value at most 65535.
pub open spec fn valid_port(s: Seq<u8>) -> bool {
    &&& s.len() > 0
    &&& forall|i: int| 0 <= i < s.len() ==> is_digit(s[i])
    &&& digits_val(s) <= 65535
}

/// The index of the last colon of `s`, if any.
pub open spec fn last_colon(s: Seq<u8>) -> Option<int>
    decreases s.len(),
{
    if s.len() == 0 {
        None
    } else if s.last() == 58 {
        Some(s.len() - 1)
    } else {
        last_colon(s.drop_last())
    }
}

proof fn lemma_last_colon_at(s: Seq<u8>, k: int)
    requires
        0 <= k < s.len(),
        s[k] == 58,
        forall|j: int| k < j < s.len() ==> s[j] != 58,
    ensures
        last_colon(s) == Some(k),
    decreases s.len(),
{
    if k < s.len() - 1 {
        lemma_last_colon_at(s.drop_last(), k);
    }
}

proof fn lemma_no_colon(s: Seq<u8>)
    requires
        forall|j: int| 0 <= j < s.len() ==> s[j] != 58,
    ensures
        last_colon(s) is None,
    decreases s.len(),
{
    if s.len() > 0 {
        lemma_no_colon(s.drop_last());
    }
}

proof fn lemma_digits_val_nonneg(s: Seq<u8>)
    requires
        forall|i: int| 0 <= i < s.len() ==> is_digit(s[i]),
    ensures
        0 <= digits_val(s),
    decreases s.len(),
{
    if s.len() > 0 {
        lemma_digits_val_nonneg(s.drop_last());
    }
}

proof fn lemma_digits_val_prefix(s: Seq<u8>, j: int)
    requires
        forall|i: int| 0 <= i < s.len() ==> is_digit(s[i]),
        0 <= j <= s.len(),
    ensures
        digits_val(s.take(j)) <= digits_val(s),
    decreases s.len() - j,
{
    if j < s.len() {
        assert(s.take(j + 1).drop_last() =~= s.take(j));
        lemma_digits_val_nonneg(s.take(j));
        lemma_digits_val_prefix(s, j + 1);
    } else {
        assert(s.take(j) =~= s);
    }
}

/// Parses `s` as a decimal port number; `Some` exactly on well-formed
/// port strings, whose value it returns.
pub fn parse_port(s: &[u8]) -> (r: Option<u16>)
    ensures
        match r {
            Some(p) => valid_port(s@) && p as int == digits_val(s@),
            None => !valid_port(s@),
        },
{
    let n = s.len();
    if n == 0 {
        return None;
    }
    let mut val: u32 = 0;
    let mut i: usize = 0;
    while i < n
        invariant
            n == s@.len(),
            0 < n,
            i <= n,
            forall|j: int| 0 <= j < i ==> is_digit(s@[j]),
            val as int == digits_val(s@.take(i as int)),
            val <= 65535,
        decreases n - i,
    {
        let c = s[i];
        if c < 48 || c > 57 {
            return None;
        }
        proof {
            assert(s@.take(i + 1).drop_last() =~= s@.take(i as int));
        }
        val = val * 10 + ((c - 48) as u32);
        i = i + 1;
        if val > 65535 {
            // Whatever follows, the value can only grow: reject.
            proof {
                if valid_port(s@) {
                    lemma_digits_val_prefix(s@, i as int);
                }
            }
            return None;
        }
    }
    proof {
        assert(s@.take(n as int) =~= s@);
    }
    Some(val as u16)
}

/// What a CONNECT authority resolves to: the bytes before the last
/// colon as the host and the digits after it as the port, provided the
/// host is non-empty and the port is well formed. CONNECT has no
/// default port: an authority without a colon does not resolve.
pub open spec fn spec_resolve_connect(a: Seq<u8>) -> Option<(Seq<u8>, int)> {
    match last_colon(a) {
        None => None,
        Some(k) => if k > 0 && valid_port(a.skip(k + 1)) {
            Some((a.take(k), digits_val(a.skip(k + 1))))
        } else {
            None
        },
    }
}

/// Resolves a CONNECT authority, exactly as `spec_resolve_connect`
/// says; `InvalidTarget` on every authority that does not resolve.
pub fn resolve_connect(authority: &[u8]) -> (r: Result<TargetAddress, ProxyError>)
    ensures
        match r {
            Ok(t) => spec_resolve_connect(authority@) == Some((t.host@, t.port as int)),
            Err(e) => spec_resolve_connect(authority@) is None && e == ProxyError::InvalidTarget,
        },
{
    let n = authority.len();
    let mut i: usize = n;
    while i > 0
        invariant
            n == authority@.len(),
            i <= n,
            forall|j: int| i <= j < n ==> authority@[j] != 58,
        decreases i,
    {
        if authority[i - 1] == 58 {
            let k = i - 1;
            proof {
                lemma_last_colon_at(authority@, k as int);
            }
            if k == 0 {
                return Err(ProxyError::InvalidTarget);
            }
            let port_str = slice_subrange(authority, k + 1, n);
            match parse_port(port_str) {
                Some(p) => {
                    let host = slice_subrange(authority, 0, k);
                    return Ok(TargetAddress { host: slice_to_vec(host), port: p });
                },
                None => {
                    return Err(ProxyError::InvalidTarget);
                },
            }
        }
        i = i - 1;
    }
    proof {
        lemma_no_colon(authority@);
    }
    Err(ProxyError::InvalidTarget)
}

/// A resolved forward target: the address to connect to and the
/// origin-form request target (path plus query) to send there.
pub struct ForwardTarget {
    pub addr: TargetAddress,
    pub origin_form: Vec<u8>,
}

/// The index of the first `://` at or after `i`, if any.
pub open spec fn first_sep_from(s: Seq<u8>, i: int) -> Option<int>
    decreases s.len() - i when 0 <= i <= s.len()
{
    if i + 3 > s.len() {
        None
    } else if s[i] == 58 && s[i + 1] == 47 && s[i + 2] == 47 {
        Some(i)
    } else {
        first_sep_from(s, i + 1)
    }
}

/// The index, at or after `i`, where the authority part ends: the first
/// `/`, `?` or `#`, or the end of `s`.
pub open spec fn authority_end_from(s: Seq<u8>, i: int) -> int
    decreases s.len() - i when 0 <= i <= s.len()
{
    if i >= s.len() {
        i
    } else if s[i] == 47 || s[i] == 63 || s[i] == 35 {
        i
    } else {
        authority_end_from(s, i + 1)
    }
}

/// The index, at or after `i`, of the first `#`, or the end of `s`.
pub open spec fn hash_end_from(s: Seq<u8>, i: int) -> int
    decreases s.len() - i when 0 <= i <= s.len()
{
    if i >= s.len() {
        i
    } else if s[i] == 35 {
        i
    } else {
        hash_end_from(s, i + 1)
    }
}

/// The origin-form request target derived from `tail`, the URI part
/// after the authority: everything up to the fragment, with `/` put in
/// front when the path is empty.
pub open spec fn origin_of(tail: Seq<u8>) -> Seq<u8> {
    let t = tail.take(hash_end_from(tail, 0));
    if t.len() == 0 {
        seq![47u8]
    } else if t[0] == 63 {
        seq![47u8] + t
    } else {
        t
    }
}

/// The host and port an authority names when a port need not be
/// explicit: without a colon the whole authority is the host and the
/// port defaults to 80.
pub open spec fn host_port(a: Seq<u8>) -> Option<(Seq<u8>, int)> {
    match last_colon(a) {
        None => if a.len() > 0 {
            Some((a, 80))
        } else {
            None
        },
        Some(k) => if k > 0 && valid_port(a.skip(k + 1)) {
            Some((a.take(k), digits_val(a.skip(k + 1))))
        } else {
            None
        },
    }
}

/// What an absolute request URI resolves to: host, port (default 80)
/// and origin-form target. A URI without a `scheme://` part or without
/// a host does not resolve.
pub open spec fn spec_parse_absolute(s: Seq<u8>) -> Option<(Seq<u8>, int, Seq<u8>)> {
    match first_sep_from(s, 0) {
        None => None,
        Some(sep) => if sep == 0 {
            None
        } else {
            let rest = s.skip(sep + 3);
            let ae = authority_end_from(rest, 0);
            match host_port(rest.take(ae)) {
                None => None,
                Some((h, p)) => Some((h, p, origin_of(rest.skip(ae)))),
            }
        },
    }
}

/// Resolves the host and default-80 port of an authority, exactly as
/// `host_port` says.
fn resolve_host_port(a: &[u8]) -> (r: Option<TargetAddress>)
    ensures
        match r {
            Some(t) => host_port(a@) == Some((t.host@, t.port as int)),
            None => host_port(a@) is None,
        },
{
    let n = a.len();
    let mut i: usize = n;
    while i > 0
        invariant
            n == a@.len(),
            i <= n,
            forall|j: int| i <= j < n ==> a@[j] != 58,
        decreases i,
    {
        if a[i - 1] == 58 {
            let k = i - 1;
            proof {
                lemma_last_colon_at(a@, k as int);
            }
            if k == 0 {
                return None;
            }
            let port_str = slice_subrange(a, k + 1, n);
            match parse_port(port_str) {
                Some(p) => {
                    let host = slice_subrange(a, 0, k);
                    return Some(TargetAddress { host: slice_to_vec(host), port: p });
                },
                None => {
                    return None;
                },
            }
        }
        i = i - 1;
    }
    proof {
        lemma_no_colon(a@);
    }
    if n == 0 {
        return None;
    }
    Some(TargetAddress { host: slice_to_vec(a), port: 80 })
}

/// Finds the first `://` of `s`, exactly as `first_sep_from` says.
fn find_sep(s: &[u8]) -> (r: Option<usize>)
    ensures
        match r {
            Some(k) => first_sep_from(s@, 0) == Some(k as int) && k + 3 <= s@.len(),
            None => first_sep_from(s@, 0) is None,
        },
{
    let n = s.len();
    let mut i: usize = 0;
    while !(n < 3 || i > n - 3)
        invariant
            n == s@.len(),
            i <= n,
            first_sep_from(s@, 0) == first_sep_from(s@, i as int),
        decreases n - i,
    {
        if s[i] == 58 && s[i + 1] == 47 && s[i + 2] == 47 {
            return Some(i);
        }
        i = i + 1;
    }
    None
}

/// Resolves an absolute request URI into the target address and the
/// origin-form request target, exactly as `spec_parse_absolute` says;
/// `InvalidTarget` on every URI that does not resolve.
pub fn parse_absolute_uri(uri: &[u8]) -> (r: Result<ForwardTarget, ProxyError>)
    ensures
        match r {
            Ok(t) => spec_parse_absolute(uri@) == Some(
                (t.addr.host@, t.addr.port as int, t.origin_form@),
            ),
            Err(e) => spec_parse_absolute(uri@) is None && e == ProxyError::InvalidTarget,
        },
{
    let n = uri.len();
    // Find the first `://`.
    let sep = match find_sep(uri) {
        Some(k) => k,
        None => {
            return Err(ProxyError::InvalidTarget);
        },
    };
    if sep == 0 {
        return Err(ProxyError::InvalidTarget);
    }
    let ghost rest = uri@.skip(sep + 3);
    // Find where the authority ends.
    let mut j: usize = sep + 3;
    while j < n && uri[j] != 47 && uri[j] != 63 && uri[j] != 35
        invariant
            n == uri@.len(),
            sep + 3 <= j <= n,
            rest == uri@.skip(sep + 3),
            authority_end_from(rest, 0) == authority_end_from(rest, j - (sep + 3)),
        decreases n - j,
    {
        proof {
            assert(rest[j - (sep + 3)] == uri@[j as int]);
        }
        j = j + 1;
    }
    proof {
        if j < n {
            assert(rest[j - (sep + 3)] == uri@[j as int]);
        }
        assert(authority_end_from(rest, 0) == j - (sep + 3));
    }
    let authority = slice_subrange(uri, sep + 3, j);
    proof {
        assert(authority@ =~= rest.take(authority_end_from(rest, 0)));
    }
    let addr = match resolve_host_port(authority) {
        Some(t) => t,
        None => {
            return Err(ProxyError::InvalidTarget);
        },
    };
    // Truncate the remainder at the fragment.
    let ghost tail = rest.skip(authority_end_from(rest, 0));
    let mut f: usize = j;
    while f < n && uri[f] != 35
        invariant
            n == uri@.len(),
            j <= f <= n,
            tail == uri@.skip(j as int),
            hash_end_from(tail, 0) == hash_end_from(tail, f - j),
        decreases n - f,
    {
        proof {
            assert(tail[f - j] == uri@[f as int]);
        }
        f = f + 1;
    }
    proof {
        if f < n {
            assert(tail[f - j] == uri@[f as int]);
        }
        assert(hash_end_from(tail, 0) == f - j);
    }
    let t = slice_subrange(uri, j, f);
    proof {
        assert(t@ =~= tail.take(hash_end_from(tail, 0)));
    }
    let mut origin: Vec<u8> = Vec::new();
    if t.len() == 0 {
        origin.push(47);
        proof {
            assert(origin@ =~= origin_of(tail));
        }
    } else if t[0] == 63 {
        origin.push(47);
        let mut rest_v = slice_to_vec(t);
        origin.append(&mut rest_v);
        proof {
            assert(origin@ =~= seq![47u8] + t@);
        }
    } else {
        origin = slice_to_vec(t);
    }
    Ok(ForwardTarget { addr, origin_form: origin })
}

} // verus!
