use ais::fetch::digest::{authorization, digest_header, parse_challenge};
use ais::fetch::{after_first_response, after_second_response, cnonce_from, ok_or_status, transport_error, FirstStep, RawResponse};
use ais::error::ErrorKind;

// RFC 2617 section 3.5 test vector
const RFC_HEADER: &str = "Digest realm=\"testrealm@host.com\", qop=\"auth,auth-int\", nonce=\"dcd98b7102dd2f0e8b11d0f600bfb0c093\", opaque=\"5ccc069c403ebaf9f0171e9517f40e41\"";

#[test]
fn parses_rfc2617_challenge() {
    let c = parse_challenge(RFC_HEADER).unwrap();
    assert_eq!(c.realm, "testrealm@host.com");
    assert_eq!(c.nonce, "dcd98b7102dd2f0e8b11d0f600bfb0c093");
    assert_eq!(c.opaque.as_deref(), Some("5ccc069c403ebaf9f0171e9517f40e41"));
    assert!(c.qop_auth);
}

#[test]
fn computes_rfc2617_response() {
    let c = parse_challenge(RFC_HEADER).unwrap();
    let auth = authorization("Mufasa", "Circle Of Life", "GET", "/dir/index.html", &c, "0a4f113b", "00000001");
    assert!(
        auth.contains("response=\"6629fae49393a05397450978507c4ef1\""),
        "auth header was: {auth}"
    );
    assert!(auth.contains("opaque=\"5ccc069c403ebaf9f0171e9517f40e41\""));
    assert!(auth.contains("qop=auth"));
}

#[test]
fn authorization_full_header() {
    let c = parse_challenge(RFC_HEADER).unwrap();
    let auth = authorization("Mufasa", "Circle Of Life", "GET", "/dir/index.html", &c, "0a4f113b", "00000001");
    assert_eq!(
        auth,
        "Digest username=\"Mufasa\", realm=\"testrealm@host.com\", nonce=\"dcd98b7102dd2f0e8b11d0f600bfb0c093\", uri=\"/dir/index.html\", response=\"6629fae49393a05397450978507c4ef1\", qop=auth, nc=00000001, cnonce=\"0a4f113b\", opaque=\"5ccc069c403ebaf9f0171e9517f40e41\""
    );
}

#[test]
fn authorization_without_qop() {
    let c = parse_challenge("Digest realm=\"testrealm@host.com\", nonce=\"dcd98b7102dd2f0e8b11d0f600bfb0c093\"").unwrap();
    assert!(!c.qop_auth);
    let auth = authorization("Mufasa", "Circle Of Life", "GET", "/dir/index.html", &c, "0a4f113b", "00000001");
    assert!(auth.starts_with("Digest username=\"Mufasa\", realm=\"testrealm@host.com\""), "auth header was: {auth}");
    assert!(!auth.contains("6629fae49393a05397450978507c4ef1"));
    assert!(!auth.contains("qop="));
    assert!(!auth.contains("opaque="));
}

#[test]
fn rejects_non_digest() {
    assert!(parse_challenge("Basic realm=\"x\"").is_none());
}

#[test]
fn rejects_challenge_without_nonce() {
    assert!(parse_challenge("Digest realm=\"x\"").is_none());
}

#[test]
fn parses_unquoted_values() {
    let c = parse_challenge("Digest realm=\"AiSEG\", nonce=\"abc\", qop=auth").unwrap();
    assert!(c.qop_auth);
    assert_eq!(c.nonce, "abc");
}

#[test]
fn quoted_values_keep_commas() {
    let c = parse_challenge("  Digest   realm=\"a,b\", nonce=\"n\", qop=\"auth-int, auth\"  ").unwrap();
    assert_eq!(c.realm, "a,b");
    assert!(c.qop_auth);
    let c = parse_challenge("Digest realm=\"r\", nonce=\"n\", qop=\"auth-int\"").unwrap();
    assert!(!c.qop_auth);
}

fn response(status: u16, www: Option<&str>, body: &str) -> RawResponse {
    RawResponse { status, www_authenticate: www.map(str::to_string), body: body.to_string() }
}

#[test]
fn status_outside_2xx_is_http_status() {
    assert_eq!(ok_or_status(response(200, None, "ok"), "/x").unwrap(), "ok");
    let err = ok_or_status(response(500, None, ""), "/x").unwrap_err();
    assert_eq!(err.kind, ErrorKind::HttpStatus);
    assert_eq!(err.detail, "unexpected HTTP 500 for /x");
}

#[test]
fn first_answer_decisions() {
    match after_first_response(response(204, None, "b"), "u", "p", "GET", "/x", "c") {
        FirstStep::Done(Ok(b)) => assert_eq!(b, "b"),
        _ => panic!("expected the body"),
    }
    match after_first_response(response(401, None, ""), "u", "p", "GET", "/x", "c") {
        FirstStep::Done(Err(e)) => {
            assert_eq!(e.kind, ErrorKind::AuthFailed);
            assert_eq!(e.detail, "401 without WWW-Authenticate for /x");
        }
        _ => panic!("expected auth_failed"),
    }
    match after_first_response(response(401, Some("Basic realm=\"x\""), ""), "u", "p", "GET", "/x", "c") {
        FirstStep::Done(Err(e)) => assert_eq!(e.detail, "unsupported auth challenge: Basic realm=\"x\""),
        _ => panic!("expected auth_failed"),
    }
    match after_first_response(response(401, Some(RFC_HEADER), ""), "Mufasa", "Circle Of Life", "GET", "/dir/index.html", "0a4f113b") {
        FirstStep::Retry(a) => assert!(a.contains("response=\"6629fae49393a05397450978507c4ef1\"")),
        _ => panic!("expected a retry"),
    }
}

#[test]
fn second_answer_decisions() {
    let err = after_second_response(response(401, None, ""), "/x").unwrap_err();
    assert_eq!(err.kind, ErrorKind::AuthFailed);
    assert_eq!(err.detail, "digest authentication rejected for /x");
    assert_eq!(after_second_response(response(200, None, "ok"), "/x").unwrap(), "ok");
}

#[test]
fn transport_errors() {
    let e = transport_error(true, "timeout: global", "http://h/x");
    assert_eq!(e.kind, ErrorKind::Timeout);
    assert_eq!(e.detail, "timeout: global (http://h/x)");
    assert_eq!(transport_error(false, "refused", "u").kind, ErrorKind::Network);
}

#[test]
fn cnonce_is_sixteen_hex_digits() {
    assert_eq!(cnonce_from(0, 0), "0000000000000000");
    assert_eq!(cnonce_from(0xff, 1), "00000001000000ff");
}

#[test]
fn digest_header_without_qop_or_opaque() {
    let c = parse_challenge("Digest realm=\"AiSEG\", nonce=\"n1\"").unwrap();
    let h = digest_header("aiseg", "/page/x", &c, "cn", "00000001", "abc123");
    assert_eq!(
        h,
        "Digest username=\"aiseg\", realm=\"AiSEG\", nonce=\"n1\", uri=\"/page/x\", response=\"abc123\""
    );
}

#[test]
fn digest_header_with_qop_and_opaque() {
    let c = parse_challenge(RFC_HEADER).unwrap();
    let h = digest_header("Mufasa", "/dir/index.html", &c, "0a4f113b", "00000001", "6629fae49393a05397450978507c4ef1");
    assert_eq!(
        h,
        "Digest username=\"Mufasa\", realm=\"testrealm@host.com\", nonce=\"dcd98b7102dd2f0e8b11d0f600bfb0c093\", uri=\"/dir/index.html\", response=\"6629fae49393a05397450978507c4ef1\", qop=auth, nc=00000001, cnonce=\"0a4f113b\", opaque=\"5ccc069c403ebaf9f0171e9517f40e41\""
    );
}

#[test]
fn plan_request_headers() {
    let p = ais::fetch::plan_request("192.0.2.16", "POST", "/action/x", Some("Digest a"));
    assert_eq!(p.url, "http://192.0.2.16/action/x");
    assert!(p.post);
    assert_eq!(
        p.headers,
        vec![
            ("Content-Type".to_string(), "application/x-www-form-urlencoded".to_string()),
            ("X-Requested-With".to_string(), "XMLHttpRequest".to_string()),
            ("Authorization".to_string(), "Digest a".to_string()),
        ]
    );
    let g = ais::fetch::plan_request("h", "GET", "/page", None);
    assert!(!g.post);
    assert!(g.headers.is_empty());
}
