use session_kanban::security::bind_allowed;
use session_kanban::security::host_allowed;
use session_kanban::security::security_headers;
use session_kanban::security::CSP_HEADER;

#[test]
fn allow_basic() {
    assert!(host_allowed(Some("localhost:8081"), 8081));
    assert!(host_allowed(Some("127.0.0.1:8081"), 8081));
    assert!(host_allowed(Some("LocalHost:8081"), 8081));
    assert!(!host_allowed(Some("evil.example:8081"), 8081));
    assert!(!host_allowed(Some("0.0.0.0:8081"), 8081));
    assert!(!host_allowed(None, 8081));
    assert!(!host_allowed(Some("localhost:9999"), 8081));
}

#[test]
fn allow_edges() {
    assert!(host_allowed(Some("localhost"), 1));
    assert!(host_allowed(Some("127.0.0.1"), 1));
    assert!(host_allowed(Some("  LOCALHOST \t"), 1));
    assert!(host_allowed(Some("localhost:0"), 0));
    assert!(host_allowed(Some("127.0.0.1:65535"), 65535));
    assert!(!host_allowed(Some("localhost:08081"), 8081));
    assert!(!host_allowed(Some("localhost:"), 8081));
    assert!(!host_allowed(Some("localhost:80"), 8081));
    assert!(!host_allowed(Some("localhost:80810"), 8081));
    assert!(!host_allowed(Some("localhost.evil.example"), 8081));
    assert!(!host_allowed(Some("evil.localhost"), 8081));
    assert!(!host_allowed(Some("127.0.0.1.evil.example:8081"), 8081));
    assert!(!host_allowed(Some("127.0.0.2"), 8081));
    assert!(!host_allowed(Some("[::1]:8081"), 8081));
    assert!(!host_allowed(Some("local host"), 8081));
    assert!(!host_allowed(Some(""), 8081));
    // only ASCII letters have a case here
    assert!(!host_allowed(Some("loc\u{e1}lhost"), 8081));
}

#[test]
fn every_port_is_written_out() {
    for port in [0u16, 7, 10, 99, 100, 8081, 10000, 65535] {
        assert!(host_allowed(Some(&format!("localhost:{port}")), port));
        assert!(!host_allowed(Some(&format!("localhost:{port}")), port ^ 1));
    }
}

#[test]
fn where_to_listen() {
    assert!(bind_allowed("127.0.0.1"));
    assert!(bind_allowed("localhost"));
    assert!(!bind_allowed("0.0.0.0"));
    assert!(!bind_allowed("LOCALHOST"));
    assert!(!bind_allowed("127.0.0.1 "));
    assert!(!bind_allowed(""));
}

#[test]
fn headers_of_every_reply() {
    let headers = security_headers();
    assert_eq!(
        headers,
        vec![
            ("content-security-policy", CSP_HEADER),
            ("x-content-type-options", "nosniff"),
            ("referrer-policy", "no-referrer"),
            ("cache-control", "no-store"),
        ]
    );
    let parts: Vec<&str> = CSP_HEADER.split("; ").collect();
    assert_eq!(
        parts,
        vec![
            "default-src 'self'",
            "script-src 'self'",
            "style-src 'self' 'unsafe-inline'",
            "img-src 'self' data:",
            "connect-src 'self'",
            "object-src 'none'",
            "base-uri 'self'",
        ]
    );
}
