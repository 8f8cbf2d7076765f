use authproxy::auth::{authenticate, Credentials};
use authproxy::header::Header;
use base64::Engine;

fn creds(user: &str, pass: &str) -> Credentials {
    Credentials {
        username: Some(user.as_bytes().to_vec()),
        password: Some(pass.as_bytes().to_vec()),
    }
}

fn basic_header(payload: &str) -> Header {
    let encoded = base64::engine::general_purpose::STANDARD.encode(payload.as_bytes());
    let mut value = b"Basic ".to_vec();
    value.extend_from_slice(encoded.as_bytes());
    Header { name: b"Proxy-Authorization".to_vec(), value }
}

#[test]
fn correct_credentials_accepted() {
    let headers = vec![basic_header("user:pass")];
    assert!(authenticate(&headers, &creds("user", "pass")));
}

#[test]
fn lookup_is_case_insensitive() {
    let mut h = basic_header("user:pass");
    h.name = b"PROXY-AUTHORIZATION".to_vec();
    let headers = vec![h];
    assert!(authenticate(&headers, &creds("user", "pass")));
}

#[test]
fn password_may_contain_colons() {
    let headers = vec![basic_header("user:pa:ss:w")];
    assert!(authenticate(&headers, &creds("user", "pa:ss:w")));
}

#[test]
fn mutated_username_rejected() {
    let headers = vec![basic_header("vser:pass")];
    assert!(!authenticate(&headers, &creds("user", "pass")));
}

#[test]
fn mutated_password_rejected() {
    let headers = vec![basic_header("user:pasz")];
    assert!(!authenticate(&headers, &creds("user", "pass")));
}

#[test]
fn mutated_encoded_payload_rejected() {
    // dXNlcjpwYXNz encodes user:pass; flip one character.
    let mut value = b"Basic dXNlcjpwYXNz".to_vec();
    let n = value.len();
    value[n - 1] = b'y';
    let headers = vec![Header { name: b"proxy-authorization".to_vec(), value }];
    assert!(!authenticate(&headers, &creds("user", "pass")));
}

#[test]
fn missing_header_rejected() {
    let headers = vec![Header { name: b"host".to_vec(), value: b"example.com".to_vec() }];
    assert!(!authenticate(&headers, &creds("user", "pass")));
}

#[test]
fn wrong_scheme_rejected() {
    let encoded = base64::engine::general_purpose::STANDARD.encode(b"user:pass");
    let mut value = b"Bearer ".to_vec();
    value.extend_from_slice(encoded.as_bytes());
    let headers = vec![Header { name: b"proxy-authorization".to_vec(), value }];
    assert!(!authenticate(&headers, &creds("user", "pass")));
}

#[test]
fn invalid_base64_rejected() {
    let headers = vec![Header {
        name: b"proxy-authorization".to_vec(),
        value: b"Basic !!!not-base64!!!".to_vec(),
    }];
    assert!(!authenticate(&headers, &creds("user", "pass")));
}

#[test]
fn payload_without_colon_rejected() {
    let headers = vec![basic_header("userpass")];
    assert!(!authenticate(&headers, &creds("user", "pass")));
}

#[test]
fn no_username_configured_accepts_everything() {
    let none = Credentials { username: None, password: None };
    let empty: Vec<Header> = Vec::new();
    assert!(authenticate(&empty, &none));
    let junk = vec![Header {
        name: b"proxy-authorization".to_vec(),
        value: b"Basic %%%".to_vec(),
    }];
    assert!(authenticate(&junk, &none));
}

#[test]
fn first_matching_header_decides() {
    let ordered = vec![basic_header("user:pass"), basic_header("user:wrong")];
    assert!(authenticate(&ordered, &creds("user", "pass")));
    let reversed = vec![basic_header("user:wrong"), basic_header("user:pass")];
    assert!(!authenticate(&reversed, &creds("user", "pass")));
}
