use authproxy::target::{resolve_connect, parse_absolute_uri, ProxyError};

#[test]
fn connect_authority_resolves() {
    let t = resolve_connect(b"example.com:443").unwrap();
    assert_eq!(t.host, b"example.com".to_vec());
    assert_eq!(t.port, 443);
}

#[test]
fn connect_without_port_fails() {
    let r = resolve_connect(b"example.com");
    assert!(matches!(r, Err(ProxyError::InvalidTarget)));
}

#[test]
fn connect_with_empty_host_fails() {
    assert!(resolve_connect(b":443").is_err());
}

#[test]
fn connect_with_empty_port_fails() {
    assert!(resolve_connect(b"example.com:").is_err());
}

#[test]
fn connect_port_with_letters_fails() {
    assert!(resolve_connect(b"example.com:4a3").is_err());
}

#[test]
fn connect_port_too_large_fails() {
    assert!(resolve_connect(b"example.com:65536").is_err());
    assert!(resolve_connect(b"example.com:99999999999999").is_err());
}

#[test]
fn connect_port_bounds() {
    assert_eq!(resolve_connect(b"h:65535").unwrap().port, 65535);
    assert_eq!(resolve_connect(b"h:0").unwrap().port, 0);
}

#[test]
fn connect_port_leading_zeros() {
    assert_eq!(resolve_connect(b"h:0080").unwrap().port, 80);
}

#[test]
fn absolute_uri_with_path_and_query() {
    let t = parse_absolute_uri(b"http://host/path?q=1").unwrap();
    assert_eq!(t.addr.host, b"host".to_vec());
    assert_eq!(t.addr.port, 80);
    assert_eq!(t.origin_form, b"/path?q=1".to_vec());
}

#[test]
fn absolute_uri_with_port() {
    let t = parse_absolute_uri(b"http://host:8080/x").unwrap();
    assert_eq!(t.addr.host, b"host".to_vec());
    assert_eq!(t.addr.port, 8080);
    assert_eq!(t.origin_form, b"/x".to_vec());
}

#[test]
fn absolute_uri_without_path_gets_root() {
    let t = parse_absolute_uri(b"http://host").unwrap();
    assert_eq!(t.origin_form, b"/".to_vec());
    let t = parse_absolute_uri(b"http://host:81").unwrap();
    assert_eq!(t.addr.port, 81);
    assert_eq!(t.origin_form, b"/".to_vec());
}

#[test]
fn absolute_uri_query_without_path() {
    let t = parse_absolute_uri(b"http://host?q=1").unwrap();
    assert_eq!(t.origin_form, b"/?q=1".to_vec());
}

#[test]
fn absolute_uri_fragment_stripped() {
    let t = parse_absolute_uri(b"http://host/path#frag").unwrap();
    assert_eq!(t.origin_form, b"/path".to_vec());
}

#[test]
fn origin_form_uri_fails() {
    let r = parse_absolute_uri(b"/path?q=1");
    assert!(matches!(r, Err(ProxyError::InvalidTarget)));
}

#[test]
fn absolute_uri_without_host_fails() {
    assert!(parse_absolute_uri(b"http:///path").is_err());
}

#[test]
fn absolute_uri_bad_port_fails() {
    assert!(parse_absolute_uri(b"http://host:bad/x").is_err());
}
