use authproxy::auth::Credentials;
use authproxy::header::Header;
use authproxy::rewrite::{rewrite_headers, render_request_head};
use authproxy::route::{route, Decision, connect_established_response, error_response};
use authproxy::target::ProxyError;
use base64::Engine;

fn creds(user: &str, pass: &str) -> Credentials {
    Credentials {
        username: Some(user.as_bytes().to_vec()),
        password: Some(pass.as_bytes().to_vec()),
    }
}

fn auth_header(user: &str, pass: &str) -> Header {
    let payload = format!("{}:{}", user, pass);
    let encoded = base64::engine::general_purpose::STANDARD.encode(payload.as_bytes());
    let mut value = b"Basic ".to_vec();
    value.extend_from_slice(encoded.as_bytes());
    Header { name: b"Proxy-Authorization".to_vec(), value }
}

#[test]
fn unauthenticated_request_requires_auth() {
    let headers: Vec<Header> = Vec::new();
    let d = route(b"GET", b"http://host/", &headers, &creds("user", "pass"));
    assert!(matches!(d, Decision::RequireAuth));
}

#[test]
fn connect_with_valid_target_tunnels() {
    let headers = vec![auth_header("user", "pass")];
    let d = route(b"CONNECT", b"example.com:443", &headers, &creds("user", "pass"));
    match d {
        Decision::Tunnel { target } => {
            assert_eq!(target.host, b"example.com".to_vec());
            assert_eq!(target.port, 443);
        },
        _ => panic!("expected a tunnel decision"),
    }
}

#[test]
fn connect_without_port_is_refused_without_target() {
    let headers = vec![auth_header("user", "pass")];
    let d = route(b"CONNECT", b"example.com", &headers, &creds("user", "pass"));
    assert!(matches!(d, Decision::BadTarget));
}

#[test]
fn forwarded_get_rewrites_request_line_and_host() {
    let headers = vec![
        auth_header("user", "pass"),
        Header { name: b"Host".to_vec(), value: b"stale".to_vec() },
        Header { name: b"Accept".to_vec(), value: b"*/*".to_vec() },
    ];
    let d = route(b"GET", b"http://host/path?q=1", &headers, &creds("user", "pass"));
    match d {
        Decision::Forward { target, origin_form, headers } => {
            assert_eq!(target.host, b"host".to_vec());
            assert_eq!(target.port, 80);
            assert_eq!(origin_form, b"/path?q=1".to_vec());
            let head = render_request_head(b"GET", &origin_form, &headers);
            assert_eq!(
                String::from_utf8(head).unwrap(),
                "GET /path?q=1 HTTP/1.1\r\nHost: host\r\nAccept: */*\r\n\r\n"
            );
        },
        _ => panic!("expected a forward decision"),
    }
}

#[test]
fn forwarded_request_keeps_header_order() {
    let headers = vec![
        Header { name: b"B".to_vec(), value: b"2".to_vec() },
        Header { name: b"A".to_vec(), value: b"1".to_vec() },
    ];
    let out = rewrite_headers(&headers, b"target");
    assert_eq!(out.len(), 3);
    assert_eq!(out[0].name, b"Host".to_vec());
    assert_eq!(out[0].value, b"target".to_vec());
    assert_eq!(out[1].name, b"B".to_vec());
    assert_eq!(out[2].name, b"A".to_vec());
}

#[test]
fn rewrite_drops_proxy_auth_case_insensitively() {
    let headers = vec![
        Header { name: b"PROXY-Authorization".to_vec(), value: b"Basic x".to_vec() },
        Header { name: b"HOST".to_vec(), value: b"old".to_vec() },
    ];
    let out = rewrite_headers(&headers, b"h");
    assert_eq!(out.len(), 1);
    assert_eq!(out[0].name, b"Host".to_vec());
    assert_eq!(out[0].value, b"h".to_vec());
}

#[test]
fn malformed_forward_target_is_refused() {
    let headers = vec![auth_header("user", "pass")];
    let d = route(b"GET", b"/no-absolute-uri", &headers, &creds("user", "pass"));
    assert!(matches!(d, Decision::BadTarget));
}

#[test]
fn no_credentials_configured_forwards_without_header() {
    let none = Credentials { username: None, password: None };
    let headers: Vec<Header> = Vec::new();
    let d = route(b"GET", b"http://host/", &headers, &none);
    assert!(matches!(d, Decision::Forward { .. }));
}

#[test]
fn connect_ack_bytes_are_exact() {
    let ack = connect_established_response();
    assert_eq!(
        String::from_utf8(ack).unwrap(),
        "HTTP/1.1 200 Connection Established\r\n\r\n"
    );
}

#[test]
fn error_responses_carry_expected_status() {
    let r407 = String::from_utf8(error_response(&ProxyError::AuthRequired).unwrap()).unwrap();
    assert!(r407.starts_with("HTTP/1.1 407 "));
    assert!(r407.contains("Proxy-Authenticate: Basic realm=\"Proxy\"\r\n"));
    let r400 = String::from_utf8(error_response(&ProxyError::InvalidTarget).unwrap()).unwrap();
    assert!(r400.starts_with("HTTP/1.1 400 "));
    let r502 =
        String::from_utf8(error_response(&ProxyError::UpstreamConnectFailed).unwrap()).unwrap();
    assert!(r502.starts_with("HTTP/1.1 502 "));
    assert!(error_response(&ProxyError::TransportError).is_none());
}

#[test]
fn connect_method_is_case_sensitive() {
    let headers = vec![auth_header("user", "pass")];
    // A lower-case "connect" is not the CONNECT method: it is forwarded,
    // and its target URI is not absolute, so it is refused.
    let d = route(b"connect", b"example.com:443", &headers, &creds("user", "pass"));
    assert!(matches!(d, Decision::BadTarget));
}
