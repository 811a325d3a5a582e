use ais::error::{AisError, ErrorKind};

#[test]
fn kinds_names_and_exit_codes() {
    let all = [
        (ErrorKind::Network, "network", 3),
        (ErrorKind::Timeout, "timeout", 3),
        (ErrorKind::AuthFailed, "auth_failed", 4),
        (ErrorKind::HttpStatus, "http_status", 5),
        (ErrorKind::ParseFailed, "parse_failed", 6),
        (ErrorKind::ControlRejected, "control_rejected", 7),
        (ErrorKind::DeviceNotFound, "device_not_found", 11),
        (ErrorKind::DeviceAmbiguous, "device_ambiguous", 11),
    ];
    for (k, name, code) in all {
        assert_eq!(k.as_str(), name);
        assert_eq!(k.exit_code(), code);
    }
}

#[test]
fn error_json_line() {
    let e = AisError::parse_failed("no circuit entries found on electricflow/1113 (firmware mismatch?)".to_string());
    assert_eq!(
        e.to_json(),
        r#"{"error":{"detail":"no circuit entries found on electricflow/1113 (firmware mismatch?)","kind":"parse_failed"}}"#
    );
    let e = AisError::new(ErrorKind::Network, "a \"b\"".to_string());
    assert_eq!(e.kind, ErrorKind::Network);
    assert_eq!(e.to_json(), r#"{"error":{"detail":"a \"b\"","kind":"network"}}"#);
}
