use web2llm::error::Web2llmError;
use web2llm::preflight::{is_private_host, validate};

fn invalid_message(raw: &str, block: bool) -> String {
    match validate(raw, block) {
        Err(Web2llmError::InvalidUrl(m)) => m,
        Err(other) => panic!("unexpected error {:?}", other),
        Ok(_) => panic!("{} was accepted", raw),
    }
}

#[test]
fn test_validate_valid_https() {
    assert!(validate("https://example.com", true).is_ok());
}

#[test]
fn test_validate_valid_http() {
    assert!(validate("http://example.com", true).is_ok());
}

#[test]
fn test_validate_rejected_schemes() {
    assert!(validate("ftp://example.com", true).is_err());
    assert!(validate("file:///tmp/test.txt", true).is_err());
}

#[test]
fn test_validate_garbage() {
    assert!(validate("not-a-url", true).is_err());
}

#[test]
fn test_validate_loopback_ip() {
    assert!(validate("http://127.0.0.1", true).is_err());
}

#[test]
fn test_validate_private_ip() {
    assert!(validate("http://192.168.1.1", true).is_err());
}

#[test]
fn test_validate_localhost_blocked() {
    assert!(validate("http://localhost", true).is_err());
}

#[test]
fn test_validate_localhost_allowed() {
    assert!(validate("http://localhost", false).is_ok());
}

#[test]
fn validate_reports_the_first_failed_check() {
    assert_eq!(invalid_message("not-a-url", true), "not-a-url");
    assert_eq!(invalid_message("ftp://example.com", true), "scheme 'ftp' is not allowed");
    assert_eq!(
        invalid_message("http://10.0.0.1/x", true),
        "private or loopback addresses are not allowed"
    );
    assert_eq!(
        invalid_message("http://localhost.localdomain", true),
        "private or loopback addresses are not allowed"
    );
}

#[test]
fn validate_keeps_the_parsed_parts() {
    let u = validate("HTTPS://Example.com:8443/a/b?q=1#frag", true).unwrap();
    assert_eq!(u.scheme, "https");
    assert_eq!(u.host.as_deref(), Some("example.com"));
    assert_eq!(u.port, Some(8443));
    assert_eq!(u.known_port, Some(8443));
    assert_eq!(u.href, "https://example.com:8443/a/b?q=1#frag");
    assert_eq!(u.without_fragment, "https://example.com:8443/a/b?q=1");
    let d = validate("https://example.com/", true).unwrap();
    assert_eq!(d.port, None);
    assert_eq!(d.known_port, Some(443));
}

#[test]
fn private_ranges_are_recognized() {
    for raw in [
        "http://127.1.2.3",
        "http://10.20.30.40",
        "http://172.16.0.1",
        "http://172.31.255.255",
        "http://192.168.0.10",
        "http://169.254.1.1",
        "http://[::1]",
        "http://[0:0:0:0:0:0:0:1]/x",
    ] {
        let u = validate(raw, false).unwrap();
        assert!(is_private_host(&u), "{}", raw);
        assert!(validate(raw, true).is_err(), "{}", raw);
    }
    for raw in ["http://172.32.0.1", "http://8.8.8.8", "http://example.com", "http://[2001:db8::1]", "http://[::ffff:127.0.0.1]"] {
        let u = validate(raw, true).unwrap();
        assert!(!is_private_host(&u), "{}", raw);
    }
}
