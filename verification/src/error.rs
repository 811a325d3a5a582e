//! Error type. Each `kind` has an exit code and a structured JSON form for stderr.

use vstd::prelude::*;
use crate::json::{JsonValue, JsonModel, json_text, entries_map};

verus! {

/// Error classification; matches `{"error":{"kind":...}}` on stderr and the exit code.
#[derive(Debug, Clone, Copy, PartialEq, Eq, Structural)]
pub enum ErrorKind {
    /// Network unreachable / connection failure (exit 3)
    Network,
    /// Timeout (exit 3)
    Timeout,
    /// Digest authentication failed = 401 (exit 4)
    AuthFailed,
    /// The controller returned an unexpected HTTP status (exit 5)
    HttpStatus,
    /// Selector mismatch / unexpected format = firmware drift is likely (exit 6)
    ParseFailed,
    /// Control rejected / result unconfirmed (exit 7)
    ControlRejected,
    /// The device is not in the device-control list (exit 11)
    DeviceNotFound,
    /// The query matches several devices (exit 11)
    DeviceAmbiguous,
}

/// The name of a kind as it appears on stderr.
pub open spec fn kind_name(k: ErrorKind) -> Seq<char> {
    match k {
        ErrorKind::Network => "network"@,
        ErrorKind::Timeout => "timeout"@,
        ErrorKind::AuthFailed => "auth_failed"@,
        ErrorKind::HttpStatus => "http_status"@,
        ErrorKind::ParseFailed => "parse_failed"@,
        ErrorKind::ControlRejected => "control_rejected"@,
        ErrorKind::DeviceNotFound => "device_not_found"@,
        ErrorKind::DeviceAmbiguous => "device_ambiguous"@,
    }
}

/// The process exit code of a kind.
pub open spec fn kind_exit_code(k: ErrorKind) -> i32 {
    match k {
        ErrorKind::Network | ErrorKind::Timeout => 3,
        ErrorKind::AuthFailed => 4,
        ErrorKind::HttpStatus => 5,
        ErrorKind::ParseFailed => 6,
        ErrorKind::ControlRejected => 7,
        ErrorKind::DeviceNotFound | ErrorKind::DeviceAmbiguous => 11,
    }
}

impl ErrorKind {
    pub fn as_str(self) -> (r: &'static str)
        ensures
            r@ == kind_name(self),
    {
        match self {
            ErrorKind::Network => "network",
            ErrorKind::Timeout => "timeout",
            ErrorKind::AuthFailed => "auth_failed",
            ErrorKind::HttpStatus => "http_status",
            ErrorKind::ParseFailed => "parse_failed",
            ErrorKind::ControlRejected => "control_rejected",
            ErrorKind::DeviceNotFound => "device_not_found",
            ErrorKind::DeviceAmbiguous => "device_ambiguous",
        }
    }

    pub fn exit_code(self) -> (r: i32)
        ensures
            r == kind_exit_code(self),
    {
        match self {
            ErrorKind::Network | ErrorKind::Timeout => 3,
            ErrorKind::AuthFailed => 4,
            ErrorKind::HttpStatus => 5,
            ErrorKind::ParseFailed => 6,
            ErrorKind::ControlRejected => 7,
            ErrorKind::DeviceNotFound | ErrorKind::DeviceAmbiguous => 11,
        }
    }
}

#[derive(Debug)]
pub struct AisError {
    pub kind: ErrorKind,
    pub detail: String,
}

/// The JSON structure that [`AisError::to_json`] writes:
/// `{"error":{"kind":<kind name>,"detail":<detail>}}`.
pub open spec fn error_json_model(kind: ErrorKind, detail: Seq<char>) -> JsonModel {
    JsonModel::Object(
        Map::empty().insert(
            "error"@,
            JsonModel::Object(
                Map::empty().insert("kind"@, JsonModel::Str(kind_name(kind))).insert(
                    "detail"@,
                    JsonModel::Str(detail),
                ),
            ),
        ),
    )
}

impl AisError {
    pub fn new(kind: ErrorKind, detail: String) -> (r: AisError)
        ensures
            r.kind == kind,
            r.detail@ == detail@,
    {
        AisError { kind, detail }
    }

    pub fn parse_failed(detail: String) -> (r: AisError)
        ensures
            r.kind == ErrorKind::ParseFailed,
            r.detail@ == detail@,
    {
        Self::new(ErrorKind::ParseFailed, detail)
    }

    /// The structured log line for stderr.
    pub fn to_json(&self) -> (r: String)
        ensures
            r@ == json_text(error_json_model(self.kind, self.detail@)),
    {
        let mut inner: Vec<(String, JsonValue)> = Vec::new();
        inner.push((String::from_str("kind"), JsonValue::string(self.kind.as_str())));
        inner.push((String::from_str("detail"), JsonValue::string(self.detail.as_str())));
        let inner_v = JsonValue::object(inner);
        let mut outer: Vec<(String, JsonValue)> = Vec::new();
        outer.push((String::from_str("error"), inner_v));
        let v = JsonValue::object(outer);
        proof {
            reveal_with_fuel(entries_map, 3);
            let e = inner@.map_values(|e: (String, JsonValue)| (e.0@, e.1@));
            assert(e.drop_last().drop_last() =~= Seq::<(Seq<char>, JsonModel)>::empty());
            assert(entries_map(e) =~= Map::empty().insert("kind"@, JsonModel::Str(kind_name(self.kind))).insert(
                "detail"@, JsonModel::Str(self.detail@)));
            let o = outer@.map_values(|e: (String, JsonValue)| (e.0@, e.1@));
            assert(o.drop_last() =~= Seq::<(Seq<char>, JsonModel)>::empty());
            assert(entries_map(o) =~= Map::empty().insert("error"@, inner_v@));
        }
        v.to_text()
    }
}

} // verus!
