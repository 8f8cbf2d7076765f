//! The request rewriter: builds the outbound request head for the
//! forward path. The request line is put into origin form, the
//! `Proxy-Authorization` and `Host` headers are dropped, a single
//! canonical `Host` header for the target is put first, and every other
//! header passes through unchanged, in order.

use vstd::prelude::*;
use vstd::slice::slice_to_vec;
use crate::bytes::{all_ascii, ascii_of, lower_seq, lit_bytes, eq_ignore_case};
use crate::header::{Header, hmodel, header_value};
use crate::auth::pa_name;

verus! {

/// The canonical name of the inserted `Host` header.
pub open spec fn host_name() -> Seq<u8> {
    ascii_of("Host"@)
}

/// True of the header names the proxy does not forward: the
/// proxy-only `Proxy-Authorization` and any client-sent `Host`.
pub open spec fn dropped_header(name: Seq<u8>) -> bool {
    lower_seq(name) == pa_name() || lower_seq(name) == ascii_of("host"@)
}

/// True of the headers that pass through to the target.
pub open spec fn kept(h: (Seq<u8>, Seq<u8>)) -> bool {
    !dropped_header(h.0)
}

/// The forwarded header list: a single canonical `Host: <host>` first,
/// then every kept header of the request, in original order.
pub open spec fn rewritten_headers(hs: Seq<(Seq<u8>, Seq<u8>)>, host: Seq<u8>) -> Seq<
    (Seq<u8>, Seq<u8>),
> {
    seq![(host_name(), host)] + hs.filter(|h: (Seq<u8>, Seq<u8>)| kept(h))
}

/// Decides whether a header named `name` is forwarded.
fn keeps_header(name: &[u8]) -> (r: bool)
    ensures
        r == !dropped_header(name@),
{
    proof {
        reveal_strlit("proxy-authorization");
        assert(all_ascii("proxy-authorization"@));
        reveal_strlit("host");
        assert(all_ascii("host"@));
    }
    let pa = lit_bytes("proxy-authorization");
    let ho = lit_bytes("host");
    proof {
        assert(lower_seq(pa@) =~= pa_name());
        assert(lower_seq(ho@) =~= ascii_of("host"@));
    }
    let r = !(eq_ignore_case(name, pa.as_slice()) || eq_ignore_case(name, ho.as_slice()));
    proof {
        if lower_seq(name@) == pa_name() {
            assert(lower_seq(name@) == lower_seq(pa@));
        }
        if lower_seq(name@) == ascii_of("host"@) {
            assert(lower_seq(name@) == lower_seq(ho@));
        }
    }
    r
}

/// Rewrites the header list for forwarding to `host`, exactly as
/// `rewritten_headers` says.
pub fn rewrite_headers(headers: &Vec<Header>, host: &[u8]) -> (out: Vec<Header>)
    ensures
        hmodel(out@) == rewritten_headers(hmodel(headers@), host@),
{
    broadcast use vstd::seq_lib::group_seq_properties;

    let ghost hm = hmodel(headers@);
    proof {
        reveal_strlit("Host");
        assert(all_ascii("Host"@));
    }
    let mut out: Vec<Header> = Vec::new();
    out.push(Header { name: lit_bytes("Host"), value: slice_to_vec(host) });
    proof {
        reveal_with_fuel(Seq::<_>::filter, 1);
        assert(hm.take(0) =~= Seq::<(Seq<u8>, Seq<u8>)>::empty());
        assert(hmodel(out@) =~= seq![(host_name(), host@)] + hm.take(0).filter(|h: (Seq<u8>, Seq<u8>)| kept(h)));
    }
    let mut i: usize = 0;
    while i < headers.len()
        invariant
            hm == hmodel(headers@),
            hm.len() == headers@.len(),
            i <= headers@.len(),
            hmodel(out@) == seq![(host_name(), host@)] + hm.take(i as int).filter(|h: (Seq<u8>, Seq<u8>)| kept(h)),
        decreases headers@.len() - i,
    {
        let h = &headers[i];
        proof {
            assert(hm[i as int] == (h.name@, h.value@));
        }
        let ghost prev = hmodel(out@);
        if keeps_header(h.name.as_slice()) {
            out.push(Header { name: slice_to_vec(h.name.as_slice()), value: slice_to_vec(h.value.as_slice()) });
            proof {
                assert(hmodel(out@) =~= prev + seq![hm[i as int]]);
            }
        }
        proof {
            assert(hm.take(i + 1).drop_last() =~= hm.take(i as int));
            assert(hm.take(i + 1).last() == hm[i as int]);
            reveal(Seq::filter);
            if kept(hm[i as int]) {
                assert(hm.take(i + 1).filter(|h: (Seq<u8>, Seq<u8>)| kept(h)) == hm.take(i as int).filter(|h: (Seq<u8>, Seq<u8>)| kept(h)).push(
                    hm[i as int],
                ));
                assert(hmodel(out@) =~= seq![(host_name(), host@)] + hm.take(i + 1).filter(|h: (Seq<u8>, Seq<u8>)| kept(h)));
            } else {
                assert(hm.take(i + 1).filter(|h: (Seq<u8>, Seq<u8>)| kept(h)) == hm.take(i as int).filter(|h: (Seq<u8>, Seq<u8>)| kept(h)));
            }
        }
        i = i + 1;
    }
    proof {
        assert(hm.take(headers@.len() as int) =~= hm);
    }
    out
}

/// The forwarded header list carries the canonical `Host` first and
/// after it only kept headers: no `Proxy-Authorization` and no second
/// `Host` survive rewriting, and a `proxy-authorization` lookup on the
/// rewritten list finds nothing.
pub proof fn lemma_rewritten_headers_clean(hs: Seq<(Seq<u8>, Seq<u8>)>, host: Seq<u8>)
    ensures
        rewritten_headers(hs, host).len() >= 1,
        rewritten_headers(hs, host)[0] == (host_name(), host),
        forall|j: int|
            1 <= j < rewritten_headers(hs, host).len() ==> !dropped_header(
                #[trigger] rewritten_headers(hs, host)[j].0,
            ),
        header_value(rewritten_headers(hs, host), pa_name()) is None,
{
    broadcast use vstd::seq_lib::group_seq_properties;

    let out = rewritten_headers(hs, host);
    assert forall|j: int| 1 <= j < out.len() implies !dropped_header(#[trigger] out[j].0) by {
        hs.lemma_filter_pred(|h: (Seq<u8>, Seq<u8>)| kept(h), j - 1);
        assert(out[j] == hs.filter(|h: (Seq<u8>, Seq<u8>)| kept(h))[j - 1]);
    }
    reveal_strlit("proxy-authorization");
    reveal_strlit("Host");
    assert(pa_name().len() == 19);
    assert(host_name().len() == 4);
    assert(lower_seq(out[0].0).len() == 4);
    lemma_no_pa_lookup(out);
}

proof fn lemma_no_pa_lookup(hs: Seq<(Seq<u8>, Seq<u8>)>)
    requires
        forall|j: int| 0 <= j < hs.len() ==> lower_seq(#[trigger] hs[j].0) != pa_name(),
    ensures
        header_value(hs, pa_name()) is None,
    decreases hs.len(),
{
    if hs.len() > 0 {
        reveal_strlit("proxy-authorization");
        assert(lower_seq(pa_name()) =~= pa_name());
        lemma_no_pa_lookup(hs.drop_first());
    }
}

/// The CRLF line ending.
pub open spec fn crlf() -> Seq<u8> {
    ascii_of("\r\n"@)
}

/// One rendered header line: `name: value` and CRLF.
pub open spec fn render_header(h: (Seq<u8>, Seq<u8>)) -> Seq<u8> {
    h.0 + ascii_of(": "@) + h.1 + crlf()
}

/// The rendered header block: each header line in order.
pub open spec fn render_headers(hs: Seq<(Seq<u8>, Seq<u8>)>) -> Seq<u8>
    decreases hs.len(),
{
    if hs.len() == 0 {
        Seq::empty()
    } else {
        render_headers(hs.drop_last()) + render_header(hs.last())
    }
}

/// The origin-form request line: method, origin-form target and the
/// HTTP/1.1 version token.
pub open spec fn request_line(method: Seq<u8>, origin: Seq<u8>) -> Seq<u8> {
    method + ascii_of(" "@) + origin + ascii_of(" HTTP/1.1"@) + crlf()
}

/// A full rendered request head: request line, header block, blank line.
pub open spec fn spec_request_head(
    method: Seq<u8>,
    origin: Seq<u8>,
    hs: Seq<(Seq<u8>, Seq<u8>)>,
) -> Seq<u8> {
    request_line(method, origin) + render_headers(hs) + crlf()
}

/// Appends a copy of `src` to `dst`.
fn append_bytes(dst: &mut Vec<u8>, src: &[u8])
    ensures
        final(dst)@ == old(dst)@ + src@,
{
    let mut v = slice_to_vec(src);
    dst.append(&mut v);
}

/// Appends the bytes of an ASCII literal to `dst`.
fn append_lit(dst: &mut Vec<u8>, s: &str)
    requires
        all_ascii(s@),
    ensures
        final(dst)@ == old(dst)@ + ascii_of(s@),
{
    let mut v = lit_bytes(s);
    dst.append(&mut v);
}

/// Renders the request head for method `method`, origin-form target
/// `origin` and headers `headers`, exactly as `spec_request_head` says.
pub fn render_request_head(method: &[u8], origin: &[u8], headers: &Vec<Header>) -> (out: Vec<u8>)
    ensures
        out@ == spec_request_head(method@, origin@, hmodel(headers@)),
{
    let ghost hm = hmodel(headers@);
    proof {
        reveal_strlit(" ");
        assert(all_ascii(" "@));
        reveal_strlit(" HTTP/1.1");
        assert(all_ascii(" HTTP/1.1"@));
        reveal_strlit("\r\n");
        assert(all_ascii("\r\n"@));
        reveal_strlit(": ");
        assert(all_ascii(": "@));
    }
    let mut out: Vec<u8> = Vec::new();
    append_bytes(&mut out, method);
    append_lit(&mut out, " ");
    append_bytes(&mut out, origin);
    append_lit(&mut out, " HTTP/1.1");
    append_lit(&mut out, "\r\n");
    proof {
        assert(out@ =~= request_line(method@, origin@));
    }
    let ghost line = out@;
    let mut i: usize = 0;
    while i < headers.len()
        invariant
            hm == hmodel(headers@),
            hm.len() == headers@.len(),
            i <= headers@.len(),
            line == request_line(method@, origin@),
            all_ascii(": "@),
            all_ascii("\r\n"@),
            out@ == line + render_headers(hm.take(i as int)),
        decreases headers@.len() - i,
    {
        let h = &headers[i];
        append_bytes(&mut out, h.name.as_slice());
        append_lit(&mut out, ": ");
        append_bytes(&mut out, h.value.as_slice());
        append_lit(&mut out, "\r\n");
        proof {
            assert(hm.take(i + 1).drop_last() =~= hm.take(i as int));
            assert(hm.take(i + 1).last() == hm[i as int]);
            assert(out@ =~= line + render_headers(hm.take(i + 1)));
        }
        i = i + 1;
    }
    append_lit(&mut out, "\r\n");
    proof {
        assert(hm.take(headers@.len() as int) =~= hm);
        assert(out@ =~= spec_request_head(method@, origin@, hm));
    }
    out
}

} // verus!
