//! Control requests (`/action/devices/device/<page>/change` and the like):
//! payloads and the interpretation of the answers. Part of the
//! interpretation layer; the firmware dependence stays here.
//!
//! Contract (firmware frozen):
//! - the body is `data=<URL-encoded JSON>`
//! - lighting (Link Plus): `{"token","nodeId","eoj","type","device":{"onoff":"0x30|0x31","modulate":"-"}}`,
//!   `onoff` is the wanted state (0x30 = ON / 0x31 = OFF)
//! - toggles (air purifier and the like): `{"token","nodeId","eoj","type","state":"<current state>"}`;
//!   sending the current state makes the controller flip it
//! - answer: `{"result":"0","acceptId":"108946","errorInfo":"-"}`; result != 0 is a rejection
//! - with an acceptId, `/data/devices/device/<page>/check` with
//!   `{"acceptId":"...","type":"<devType>"}` confirms completion (0 = done / 1 = running / 2 = unknown)

use vstd::prelude::*;
use vstd::utf8::encode_utf8;
use crate::error::{AisError, ErrorKind};
use crate::json::{JsonValue, JsonRef, JsonModel, ObjectBuilder, json_text, json_parse, parse_json};
use crate::parse::devices::{Device, DeviceView};
use crate::text::{chars_of, string_of, append_str, chars_eq_str};

verus! {

pub const ONOFF_ON: &'static str = "0x30";
pub const ONOFF_OFF: &'static str = "0x31";

/// The JSON of a lighting (Link Plus) on/off request; `onoff` is the wanted state.
pub open spec fn light_payload_model(token: Seq<char>, d: DeviceView, on: bool) -> JsonModel {
    JsonModel::Object(
        Map::empty()
            .insert("token"@, JsonModel::Str(token))
            .insert("nodeId"@, JsonModel::Str(d.node_id))
            .insert("eoj"@, JsonModel::Str(d.eoj))
            .insert("type"@, JsonModel::Str(d.dev_type))
            .insert("device"@, JsonModel::Object(
                Map::empty()
                    .insert("onoff"@, JsonModel::Str(if on { "0x30"@ } else { "0x31"@ }))
                    .insert("modulate"@, JsonModel::Str("-"@)),
            )),
    )
}

/// The state a toggle request sends: the panel's `state` attribute, else the
/// code of the shown state ("on" gives 0x30, anything else 0x31).
pub open spec fn current_state_code(d: DeviceView) -> Seq<char> {
    match d.state_attr {
        Some(s) => s,
        None => if d.state == "on"@ { "0x30"@ } else { "0x31"@ },
    }
}

/// The JSON of a toggle request: it sends the current state, which the
/// controller flips.
pub open spec fn toggle_payload_model(token: Seq<char>, d: DeviceView) -> JsonModel {
    JsonModel::Object(
        Map::empty()
            .insert("token"@, JsonModel::Str(token))
            .insert("nodeId"@, JsonModel::Str(d.node_id))
            .insert("eoj"@, JsonModel::Str(d.eoj))
            .insert("type"@, JsonModel::Str(d.dev_type))
            .insert("state"@, JsonModel::Str(current_state_code(d))),
    )
}

/// The JSON of a completion check.
pub open spec fn check_payload_model(accept_id: Seq<char>, dev_type: Seq<char>) -> JsonModel {
    JsonModel::Object(
        Map::empty().insert("acceptId"@, JsonModel::Str(accept_id)).insert("type"@, JsonModel::Str(dev_type)),
    )
}

fn device_fields(obj: &mut ObjectBuilder, token: &str, device: &Device)
    ensures
        final(obj)@ == old(obj)@
            .insert("token"@, JsonModel::Str(token@))
            .insert("nodeId"@, JsonModel::Str(device.node_id@))
            .insert("eoj"@, JsonModel::Str(device.eoj@))
            .insert("type"@, JsonModel::Str(device.dev_type@)),
{
    obj.insert("token", JsonValue::string(token));
    obj.insert("nodeId", JsonValue::string(device.node_id.as_str()));
    obj.insert("eoj", JsonValue::string(device.eoj.as_str()));
    obj.insert("type", JsonValue::string(device.dev_type.as_str()));
}

/// The on/off payload of a lighting (Link Plus) device; `on` is the wanted state.
pub fn light_change_payload(token: &str, device: &Device, on: bool) -> (r: String)
    ensures
        r@ == json_text(light_payload_model(token@, device@, on)),
{
    let mut obj = ObjectBuilder::new();
    device_fields(&mut obj, token, device);
    let mut inner = ObjectBuilder::new();
    inner.insert("onoff", JsonValue::string(if on { ONOFF_ON } else { ONOFF_OFF }));
    inner.insert("modulate", JsonValue::string("-"));
    obj.insert("device", inner.build());
    obj.build().to_text()
}

/// The payload of a toggle device: it sends the current state, which flips it.
pub fn toggle_change_payload(token: &str, device: &Device) -> (r: String)
    ensures
        r@ == json_text(toggle_payload_model(token@, device@)),
{
    let current = match &device.state_attr {
        Some(s) => s.clone(),
        None => {
            let sv = chars_of(device.state.as_str());
            if chars_eq_str(sv.as_slice(), "on") { String::from_str(ONOFF_ON) } else { String::from_str(ONOFF_OFF) }
        },
    };
    let mut obj = ObjectBuilder::new();
    device_fields(&mut obj, token, device);
    obj.insert("state", JsonValue::string(current.as_str()));
    obj.build().to_text()
}

/// The payload of a completion check.
pub fn check_payload(accept_id: &str, dev_type: &str) -> (r: String)
    ensures
        r@ == json_text(check_payload_model(accept_id@, dev_type@)),
{
    let mut obj = ObjectBuilder::new();
    obj.insert("acceptId", JsonValue::string(accept_id));
    obj.insert("type", JsonValue::string(dev_type));
    obj.build().to_text()
}

/// Whether the `result` field of an answer reports success: the string "0" or
/// a number whose `as_i64` is 0.
pub open spec fn result_ok(v: JsonModel) -> bool {
    match v {
        JsonModel::Object(m) => m.contains_key("result"@) && match m["result"@] {
            JsonModel::Str(s) => s == "0"@,
            JsonModel::Number { text, integer } => integer == Some(0i64),
            _ => false,
        },
        _ => false,
    }
}

/// Whether `s` is a non-empty run of ASCII digits.
pub open spec fn all_digits(s: Seq<char>) -> bool {
    s.len() > 0 && forall|i: int| 0 <= i < s.len() ==> '0' <= #[trigger] s[i] && s[i] <= '9'
}

/// The acceptId of a successful answer: the `Display` text of a number, or a
/// string of digits ("-" or anything else means none).
pub open spec fn accept_id_spec(v: JsonModel) -> Option<Seq<char>> {
    match v {
        JsonModel::Object(m) => if m.contains_key("acceptId"@) {
            match m["acceptId"@] {
                JsonModel::Number { text, integer } => Some(text),
                JsonModel::Str(s) => if all_digits(s) && s != "-"@ { Some(s) } else { None },
                _ => None,
            }
        } else {
            None
        },
        _ => None,
    }
}

/// The `errorInfo` string of an answer, "unknown" when there is none.
pub open spec fn error_info_spec(v: JsonModel) -> Seq<char> {
    match v {
        JsonModel::Object(m) => if m.contains_key("errorInfo"@) {
            match m["errorInfo"@] {
                JsonModel::Str(s) => s,
                _ => "unknown"@,
            }
        } else {
            "unknown"@
        },
        _ => "unknown"@,
    }
}

/// The reading of a change answer: the acceptId to confirm (if any) on
/// success, the `control_rejected` detail otherwise.
pub open spec fn change_json_spec(v: JsonModel) -> Result<Option<Seq<char>>, Seq<char>> {
    if result_ok(v) {
        Ok(accept_id_spec(v))
    } else {
        Err("AiSEG2 rejected the control request (errorInfo: "@ + error_info_spec(v) + ")"@)
    }
}

fn digits_only(s: &[char]) -> (r: bool)
    ensures
        r == all_digits(s@),
{
    if s.len() == 0 {
        return false;
    }
    let mut i: usize = 0;
    while i < s.len()
        invariant
            i <= s@.len(),
            forall|k: int| 0 <= k < i ==> '0' <= #[trigger] s@[k] && s@[k] <= '9',
        decreases s@.len() - i,
    {
        if !('0' <= s[i] && s[i] <= '9') {
            return false;
        }
        i = i + 1;
    }
    true
}

/// Reads a change answer (see [`change_json_spec`]).
pub fn change_response_from_json(v: &JsonRef) -> (r: Result<Option<String>, AisError>)
    ensures
        match change_json_spec(v@) {
            Ok(a) => r matches Ok(x) && match (a, x) {
                (Some(s), Some(t)) => t@ == s,
                (None, None) => true,
                _ => false,
            },
            Err(d) => r matches Err(e) && e.kind == ErrorKind::ControlRejected && e.detail@ == d,
        },
{
    let ok = match v.get("result") {
        Some(res) => match res.as_str() {
            Some(s) => {
                let sv = chars_of(s);
                chars_eq_str(sv.as_slice(), "0")
            },
            None => match res.as_i64() {
                Some(n) => n == 0,
                None => false,
            },
        },
        None => false,
    };
    if !ok {
        let info = match v.get("errorInfo") {
            Some(e) => match e.as_str() {
                Some(s) => s,
                None => "unknown",
            },
            None => "unknown",
        };
        let mut d = chars_of("AiSEG2 rejected the control request (errorInfo: ");
        append_str(&mut d, info);
        append_str(&mut d, ")");
        return Err(AisError::new(ErrorKind::ControlRejected, string_of(d.as_slice())));
    }
    let accept = match v.get("acceptId") {
        Some(a) => match a.number_text() {
            Some(t) => Some(t),
            None => match a.as_str() {
                Some(s) => {
                    let sv = chars_of(s);
                    proof { reveal_strlit("-"); }
                    if digits_only(sv.as_slice()) && !chars_eq_str(sv.as_slice(), "-") {
                        Some(String::from_str(s))
                    } else {
                        None
                    }
                },
                None => None,
            },
        },
        None => None,
    };
    Ok(accept)
}

/// A change answer as text, or the `parse_failed` detail when it is not JSON.
pub open spec fn change_spec(body: Seq<char>) -> Result<Option<Seq<char>>, (ErrorKind, Seq<char>)> {
    match json_parse(body) {
        Err(e) => Err((ErrorKind::ParseFailed, "change response is not JSON: "@ + e)),
        Ok(v) => match change_json_spec(v) {
            Ok(a) => Ok(a),
            Err(d) => Err((ErrorKind::ControlRejected, d)),
        },
    }
}

/// Reads the answer of a change request: on success the acceptId to confirm, if any.
pub fn parse_change_response(body: &str) -> (r: Result<Option<String>, AisError>)
    ensures
        match change_spec(body@) {
            Ok(a) => r matches Ok(x) && match (a, x) {
                (Some(s), Some(t)) => t@ == s,
                (None, None) => true,
                _ => false,
            },
            Err((k, d)) => r matches Err(e) && e.kind == k && e.detail@ == d,
        },
{
    match parse_json(body) {
        Ok(v) => change_response_from_json(&v.as_ref()),
        Err(e) => {
            let mut d = chars_of("change response is not JSON: ");
            append_str(&mut d, e.as_str());
            Err(AisError::parse_failed(string_of(d.as_slice())))
        },
    }
}

/// The state of an asynchronous control request.
#[derive(Debug, PartialEq, Eq)]
pub enum CheckStatus {
    /// 0: done
    Done,
    /// 1: still running
    InProgress,
    /// 2 and others: failed / unknown
    Failed(String),
}

/// The abstract value of a [`CheckStatus`].
pub ghost enum CheckView {
    Done,
    InProgress,
    Failed(Seq<char>),
}

impl View for CheckStatus {
    type V = CheckView;

    open spec fn view(&self) -> CheckView {
        match self {
            CheckStatus::Done => CheckView::Done,
            CheckStatus::InProgress => CheckView::InProgress,
            CheckStatus::Failed(s) => CheckView::Failed(s@),
        }
    }
}

/// The status of a check answer whose result text is `code`.
pub open spec fn status_of_code(code: Seq<char>) -> CheckView {
    if code == "0"@ {
        CheckView::Done
    } else if code == "1"@ {
        CheckView::InProgress
    } else {
        CheckView::Failed(code)
    }
}

/// The result text of a check answer: a string as it is, a number by its
/// `Display` text.
pub open spec fn check_code(v: JsonModel) -> Option<Seq<char>> {
    match v {
        JsonModel::Object(m) => if m.contains_key("result"@) {
            match m["result"@] {
                JsonModel::Str(s) => Some(s),
                JsonModel::Number { text, integer } => Some(text),
                _ => None,
            }
        } else {
            None
        },
        _ => None,
    }
}

/// Reads a check answer: the status of its result, or a `parse_failed` error
/// when it has no string or number `result`.
pub fn check_response_from_json(v: &JsonRef) -> (r: Result<CheckStatus, AisError>)
    ensures
        match check_code(v@) {
            Some(c) => r matches Ok(s) && s@ == status_of_code(c),
            None => r matches Err(e) && e.kind == ErrorKind::ParseFailed && e.detail@ == "check response has no result field"@,
        },
{
    let code = match v.get("result") {
        Some(res) => match res.as_str() {
            Some(s) => String::from_str(s),
            None => match res.number_text() {
                Some(t) => t,
                None => return Err(AisError::parse_failed(String::from_str("check response has no result field"))),
            },
        },
        None => return Err(AisError::parse_failed(String::from_str("check response has no result field"))),
    };
    let cv = chars_of(code.as_str());
    if chars_eq_str(cv.as_slice(), "0") {
        Ok(CheckStatus::Done)
    } else if chars_eq_str(cv.as_slice(), "1") {
        Ok(CheckStatus::InProgress)
    } else {
        Ok(CheckStatus::Failed(code))
    }
}

/// A check answer as a status, or the `parse_failed` detail.
pub open spec fn check_spec(body: Seq<char>) -> Result<CheckView, Seq<char>> {
    match json_parse(body) {
        Err(e) => Err("check response is not JSON: "@ + e),
        Ok(v) => match check_code(v) {
            Some(c) => Ok(status_of_code(c)),
            None => Err("check response has no result field"@),
        },
    }
}

/// Reads the answer of a completion check.
pub fn parse_check_response(body: &str) -> (r: Result<CheckStatus, AisError>)
    ensures
        match check_spec(body@) {
            Ok(s) => r matches Ok(x) && x@ == s,
            Err(d) => r matches Err(e) && e.kind == ErrorKind::ParseFailed && e.detail@ == d,
        },
{
    match parse_json(body) {
        Ok(v) => check_response_from_json(&v.as_ref()),
        Err(e) => {
            let mut d = chars_of("check response is not JSON: ");
            append_str(&mut d, e.as_str());
            Err(AisError::parse_failed(string_of(d.as_slice())))
        },
    }
}

/// Whether byte `b` is an RFC 3986 unreserved character (`A-Z a-z 0-9 - _ . ~`).
pub open spec fn unreserved(b: u8) -> bool {
    (65 <= b <= 90) || (97 <= b <= 122) || (48 <= b <= 57) || b == 45 || b == 95 || b == 46 || b == 126
}

/// The upper-case hex digit of `d` (`0 <= d < 16`).
pub open spec fn hex_upper(d: int) -> char {
    if d < 10 { ((48 + d) as u8) as char } else { ((55 + d) as u8) as char }
}

/// The encoding of one byte: itself when unreserved, else `%XX` in upper-case hex.
pub open spec fn encode_byte(b: u8) -> Seq<char> {
    if unreserved(b) { seq![b as char] } else { seq!['%', hex_upper((b / 16) as int), hex_upper((b % 16) as int)] }
}

/// Percent-encoding of a byte string, byte by byte.
pub open spec fn url_spec(bytes: Seq<u8>) -> Seq<char>
    decreases bytes.len(),
{
    if bytes.len() == 0 {
        Seq::empty()
    } else {
        url_spec(bytes.drop_last()) + encode_byte(bytes.last())
    }
}

fn hex_digit(d: u8) -> (c: char)
    requires
        d < 16,
    ensures
        c == hex_upper(d as int),
{
    if d < 10 { (48 + d) as char } else { (55 + d) as char }
}

/// Percent-encoding for the `data=` body: every byte of the UTF-8 encoding that
/// is not RFC 3986 unreserved becomes `%XX`.
pub fn urlencode(s: &str) -> (r: String)
    ensures
        r@ == url_spec(encode_utf8(s@)),
{
    let bytes = s.as_bytes();
    let mut out: Vec<char> = Vec::new();
    let mut i: usize = 0;
    while i < bytes.len()
        invariant
            i <= bytes@.len(),
            bytes@ == encode_utf8(s@),
            out@ == url_spec(bytes@.take(i as int)),
        decreases bytes@.len() - i,
    {
        assert(bytes@.take(i + 1).drop_last() == bytes@.take(i as int));
        let b = bytes[i];
        if (65 <= b && b <= 90) || (97 <= b && b <= 122) || (48 <= b && b <= 57) || b == 45 || b == 95
            || b == 46 || b == 126 {
            out.push(b as char);
        } else {
            out.push('%');
            out.push(hex_digit(b / 16));
            out.push(hex_digit(b % 16));
        }
        assert(out@ =~= url_spec(bytes@.take(i + 1)));
        i = i + 1;
    }
    assert(bytes@.take(bytes@.len() as int) == bytes@);
    string_of(out.as_slice())
}

/// Whether `c` may appear in an encoded body: an unreserved character, `%`,
/// or an upper-case hex digit.
pub open spec fn url_safe_char(c: char) -> bool {
    ('A' <= c && c <= 'Z') || ('a' <= c && c <= 'z') || ('0' <= c && c <= '9') || c == '-' || c == '_'
        || c == '.' || c == '~' || c == '%'
}

/// The encoding only holds unreserved characters and `%XX` escapes: each byte
/// gives one character (unreserved) or three (`%` and two upper-case hex digits).
pub proof fn lemma_urlencode_charset(bytes: Seq<u8>)
    ensures
        forall|i: int| 0 <= i < url_spec(bytes).len() ==> url_safe_char(#[trigger] url_spec(bytes)[i]),
        bytes.len() <= url_spec(bytes).len() <= 3 * bytes.len(),
    decreases bytes.len(),
{
    if bytes.len() > 0 {
        lemma_urlencode_charset(bytes.drop_last());
        let b = bytes.last();
        let e = encode_byte(b);
        assert forall|k: int| 0 <= k < 16 implies url_safe_char(#[trigger] hex_upper(k)) by {}
        assert forall|i: int| 0 <= i < e.len() implies url_safe_char(#[trigger] e[i]) by {
            if unreserved(b) {
                assert(e[i] == b as char);
            } else {
                assert(0 <= b / 16 < 16);
                assert(0 <= b % 16 < 16);
            }
        }
        let p = url_spec(bytes.drop_last());
        assert(url_spec(bytes) == p + e);
        assert forall|i: int| 0 <= i < url_spec(bytes).len() implies url_safe_char(#[trigger] url_spec(bytes)[i]) by {
            if i < p.len() {
                assert(url_spec(bytes)[i] == p[i]);
            } else {
                assert(url_spec(bytes)[i] == e[i - p.len()]);
            }
        }
    }
}

} // verus!

verus! {

/// The value of a hex digit (either case), or -1 for any other character.
pub open spec fn hex_value(c: char) -> int {
    if '0' <= c && c <= '9' {
        c as int - 48
    } else if 'A' <= c && c <= 'F' {
        c as int - 55
    } else if 'a' <= c && c <= 'f' {
        c as int - 87
    } else {
        -1
    }
}

/// Percent-decoding: each `%XY` with two hex digits becomes the byte `0xXY`;
/// any other character stands for itself as a byte.
pub open spec fn url_decode_spec(s: Seq<char>) -> Seq<u8>
    decreases s.len(),
{
    if s.len() == 0 {
        Seq::empty()
    } else if s.len() >= 3 && s[0] == '%' && hex_value(s[1]) >= 0 && hex_value(s[2]) >= 0 {
        seq![(hex_value(s[1]) * 16 + hex_value(s[2])) as u8] + url_decode_spec(s.skip(3))
    } else {
        seq![s[0] as u8] + url_decode_spec(s.skip(1))
    }
}

/// Percent-encoding of a concatenation is the concatenation of the encodings.
pub proof fn lemma_url_spec_concat(a: Seq<u8>, b: Seq<u8>)
    ensures
        url_spec(a + b) == url_spec(a) + url_spec(b),
    decreases b.len(),
{
    if b.len() == 0 {
        assert(a + b =~= a);
    } else {
        lemma_url_spec_concat(a, b.drop_last());
        assert((a + b).drop_last() =~= a + b.drop_last());
        assert((a + b).last() == b.last());
        assert(url_spec(a + b) =~= url_spec(a) + url_spec(b));
    }
}

proof fn lemma_hex_upper_value(d: int)
    requires
        0 <= d < 16,
    ensures
        hex_value(hex_upper(d)) == d,
{
    if d < 10 {
        assert(((48 + d) as u8) as int == 48 + d);
    } else {
        assert(((55 + d) as u8) as int == 55 + d);
    }
}

proof fn lemma_decode_encoded_byte(b: u8, rest: Seq<char>)
    ensures
        url_decode_spec(encode_byte(b) + rest) == seq![b] + url_decode_spec(rest),
{
    let e = encode_byte(b);
    let s = e + rest;
    if unreserved(b) {
        assert(s[0] == b as char);
        assert((b as char) as u8 == b);
        assert(s.skip(1) =~= rest);
        assert(b != 37u8);
    } else {
        lemma_hex_upper_value((b / 16) as int);
        lemma_hex_upper_value((b % 16) as int);
        assert(s[0] == '%' && s[1] == hex_upper((b / 16) as int) && s[2] == hex_upper((b % 16) as int));
        assert(s.skip(3) =~= rest);
        assert((b / 16) * 16 + b % 16 == b);
    }
}

/// Percent-decoding the encoding of any bytes gives them back.
pub proof fn lemma_url_decode_round_trip(bytes: Seq<u8>)
    ensures
        url_decode_spec(url_spec(bytes)) == bytes,
    decreases bytes.len(),
{
    if bytes.len() > 0 {
        let rest = bytes.drop_first();
        lemma_url_spec_concat(seq![bytes[0]], rest);
        assert(seq![bytes[0]] + rest =~= bytes);
        let one = seq![bytes[0]];
        assert(one.drop_last() =~= Seq::<u8>::empty());
        assert(one.last() == bytes[0]);
        assert(url_spec(one.drop_last()) =~= Seq::<char>::empty());
        assert(url_spec(one) =~= encode_byte(bytes[0]));
        lemma_decode_encoded_byte(bytes[0], url_spec(rest));
        lemma_url_decode_round_trip(rest);
    }
}

/// UTF-8 encoding of a concatenation is the concatenation of the encodings.
pub proof fn lemma_encode_utf8_concat(a: Seq<char>, b: Seq<char>)
    ensures
        encode_utf8(a + b) == encode_utf8(a) + encode_utf8(b),
    decreases a.len(),
{
    if a.len() > 0 {
        lemma_encode_utf8_concat(a.drop_first(), b);
        assert((a + b).drop_first() =~= a.drop_first() + b);
        assert((a + b)[0] == a[0]);
        assert(encode_utf8(a + b) =~= encode_utf8(a) + encode_utf8(b));
    } else {
        assert(a + b =~= b);
    }
}

/// What `urlencode` writes for `s` percent-decodes back to the UTF-8 bytes of
/// `s`, and the encoding of a concatenation of strings is the concatenation
/// of their encodings.
pub proof fn lemma_urlencode_laws(s: Seq<char>, a: Seq<char>, b: Seq<char>)
    ensures
        url_decode_spec(url_spec(encode_utf8(s))) == encode_utf8(s),
        url_spec(encode_utf8(a + b)) == url_spec(encode_utf8(a)) + url_spec(encode_utf8(b)),
{
    lemma_url_decode_round_trip(encode_utf8(s));
    lemma_encode_utf8_concat(a, b);
    lemma_url_spec_concat(encode_utf8(a), encode_utf8(b));
}

} // verus!

verus! {

/// Both change requests name the device the same way: `token` is the token
/// and `nodeId`, `eoj` and `type` are the device's node id, EOJ and type. The
/// lighting request adds only `device` (the wanted on/off code and modulate
/// "-"); the toggle request adds only `state`, the current state code (the
/// panel's state attribute, else 0x30 for a device shown "on" and 0x31
/// otherwise).
pub proof fn lemma_change_payload_fields(token: Seq<char>, d: DeviceView, on: bool)
    ensures
        light_payload_model(token, d, on) matches JsonModel::Object(m)
            && m.dom() == set!["token"@, "nodeId"@, "eoj"@, "type"@, "device"@]
            && m["token"@] == JsonModel::Str(token)
            && m["nodeId"@] == JsonModel::Str(d.node_id)
            && m["eoj"@] == JsonModel::Str(d.eoj)
            && m["type"@] == JsonModel::Str(d.dev_type)
            && m["device"@] == JsonModel::Object(
                map!["onoff"@ => JsonModel::Str(if on { "0x30"@ } else { "0x31"@ }), "modulate"@ => JsonModel::Str("-"@)],
            ),
        toggle_payload_model(token, d) matches JsonModel::Object(m)
            && m.dom() == set!["token"@, "nodeId"@, "eoj"@, "type"@, "state"@]
            && m["token"@] == JsonModel::Str(token)
            && m["nodeId"@] == JsonModel::Str(d.node_id)
            && m["eoj"@] == JsonModel::Str(d.eoj)
            && m["type"@] == JsonModel::Str(d.dev_type)
            && m["state"@] == JsonModel::Str(match d.state_attr {
                Some(s) => s,
                None => if d.state == "on"@ { "0x30"@ } else { "0x31"@ },
            }),
{
    reveal_strlit("token");
    reveal_strlit("nodeId");
    reveal_strlit("eoj");
    reveal_strlit("type");
    reveal_strlit("device");
    reveal_strlit("state");
    reveal_strlit("onoff");
    reveal_strlit("modulate");
    assert("token"@[0] != "state"@[0]);
    assert("token"@ != "state"@);
    assert("nodeId"@[0] != "device"@[0]);
    assert("nodeId"@ != "device"@);
    assert("onoff"@.len() != "modulate"@.len());
    assert("token"@.len() != "nodeId"@.len() && "token"@ != "nodeId"@);
    assert("token"@.len() != "eoj"@.len() && "token"@ != "eoj"@);
    assert("token"@.len() != "type"@.len() && "token"@ != "type"@);
    assert("token"@.len() != "device"@.len() && "token"@ != "device"@);
    assert("nodeId"@.len() != "eoj"@.len() && "nodeId"@ != "eoj"@);
    assert("nodeId"@.len() != "type"@.len() && "nodeId"@ != "type"@);
    assert("nodeId"@.len() != "state"@.len() && "nodeId"@ != "state"@);
    assert("eoj"@.len() != "type"@.len() && "eoj"@ != "type"@);
    assert("eoj"@.len() != "device"@.len() && "eoj"@ != "device"@);
    assert("eoj"@.len() != "state"@.len() && "eoj"@ != "state"@);
    assert("type"@.len() != "device"@.len() && "type"@ != "device"@);
    assert("type"@.len() != "state"@.len() && "type"@ != "state"@);
    assert("device"@.len() != "state"@.len() && "device"@ != "state"@);
    let lm = light_payload_model(token, d, on);
    let tm = toggle_payload_model(token, d);
    match lm {
        JsonModel::Object(m) => {
            assert(m.dom() =~= set!["token"@, "nodeId"@, "eoj"@, "type"@, "device"@]);
            assert(m["token"@] == JsonModel::Str(token));
            assert(m["nodeId"@] == JsonModel::Str(d.node_id));
            assert(m["eoj"@] == JsonModel::Str(d.eoj));
            assert(m["type"@] == JsonModel::Str(d.dev_type));
            let inner = map!["onoff"@ => JsonModel::Str(if on { "0x30"@ } else { "0x31"@ }), "modulate"@ => JsonModel::Str("-"@)];
            assert(Map::<Seq<char>, JsonModel>::empty()
                .insert("onoff"@, JsonModel::Str(if on { "0x30"@ } else { "0x31"@ }))
                .insert("modulate"@, JsonModel::Str("-"@)) =~= inner);
        },
        _ => {},
    }
    match tm {
        JsonModel::Object(m) => {
            assert(m.dom() =~= set!["token"@, "nodeId"@, "eoj"@, "type"@, "state"@]);
            assert(m["token"@] == JsonModel::Str(token));
            assert(m["nodeId"@] == JsonModel::Str(d.node_id));
            assert(m["state"@] == JsonModel::Str(current_state_code(d)));
        },
        _ => {},
    }
}

} // verus!
