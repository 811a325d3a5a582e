use ais::control::{
    check_payload, light_change_payload, parse_change_response, parse_check_response, toggle_change_payload,
    urlencode, CheckStatus,
};
use ais::error::ErrorKind;
use ais::parse::devices::Device;

fn sample_device() -> Device {
    Device {
        id: "1073741825:0x029101".into(),
        name: "リビング照明".into(),
        kind: "照明".into(),
        state: "off".into(),
        node_id: "1073741825".into(),
        eoj: "0x029101".into(),
        dev_type: "0x92".into(),
        link: "32i1".into(),
        token: "123456".into(),
        state_attr: Some("0x31".into()),
    }
}

#[test]
fn light_payload_shape() {
    let payload = light_change_payload("123456", &sample_device(), true);
    let v: serde_json::Value = serde_json::from_str(&payload).unwrap();
    assert_eq!(v["token"], "123456");
    assert_eq!(v["nodeId"], "1073741825");
    assert_eq!(v["eoj"], "0x029101");
    assert_eq!(v["type"], "0x92");
    assert_eq!(v["device"]["onoff"], "0x30");
    assert_eq!(v["device"]["modulate"], "-");
}

#[test]
fn light_payload_off_asks_for_off() {
    let payload = light_change_payload("123456", &sample_device(), false);
    assert_eq!(
        payload,
        r#"{"device":{"modulate":"-","onoff":"0x31"},"eoj":"0x029101","nodeId":"1073741825","token":"123456","type":"0x92"}"#
    );
}

#[test]
fn toggle_payload_sends_current_state() {
    let payload = toggle_change_payload("123456", &sample_device());
    let v: serde_json::Value = serde_json::from_str(&payload).unwrap();
    assert_eq!(v["state"], "0x31");
    assert!(v.get("device").is_none());
}

#[test]
fn toggle_payload_without_state_attr_uses_shown_state() {
    let mut d = sample_device();
    d.state_attr = None;
    d.state = "on".into();
    let v: serde_json::Value = serde_json::from_str(&toggle_change_payload("1", &d)).unwrap();
    assert_eq!(v["state"], "0x30");
    d.state = "off".into();
    let v: serde_json::Value = serde_json::from_str(&toggle_change_payload("1", &d)).unwrap();
    assert_eq!(v["state"], "0x31");
}

#[test]
fn check_payload_shape() {
    assert_eq!(check_payload("108946", "0x92"), r#"{"acceptId":"108946","type":"0x92"}"#);
}

#[test]
fn change_response_success_with_accept_id() {
    let accept =
        parse_change_response(r#"{"result":"0","acceptId":"108946","errorInfo":"-"}"#).unwrap();
    assert_eq!(accept.as_deref(), Some("108946"));
}

#[test]
fn change_response_success_without_accept_id() {
    let accept = parse_change_response(r#"{"result":"0","acceptId":"-","errorInfo":"-"}"#).unwrap();
    assert_eq!(accept, None);
}

#[test]
fn change_response_numeric_fields() {
    let accept = parse_change_response(r#"{"result":0,"acceptId":42}"#).unwrap();
    assert_eq!(accept.as_deref(), Some("42"));
}

#[test]
fn change_response_rejected() {
    let err = parse_change_response(r#"{"result":"1","errorInfo":"busy"}"#).unwrap_err();
    assert_eq!(err.kind, ErrorKind::ControlRejected);
    assert!(err.detail.contains("busy"));
    assert_eq!(err.detail, "AiSEG2 rejected the control request (errorInfo: busy)");
}

#[test]
fn change_response_rejected_without_info() {
    let err = parse_change_response(r#"{"result":"2"}"#).unwrap_err();
    assert_eq!(err.detail, "AiSEG2 rejected the control request (errorInfo: unknown)");
}

#[test]
fn change_response_not_json() {
    let err = parse_change_response("<html>").unwrap_err();
    assert_eq!(err.kind, ErrorKind::ParseFailed);
    assert!(err.detail.starts_with("change response is not JSON: "));
}

#[test]
fn check_response_states() {
    assert_eq!(parse_check_response(r#"{"result":"0"}"#).unwrap(), CheckStatus::Done);
    assert_eq!(parse_check_response(r#"{"result":"1"}"#).unwrap(), CheckStatus::InProgress);
    assert_eq!(
        parse_check_response(r#"{"result":"2"}"#).unwrap(),
        CheckStatus::Failed("2".into())
    );
}

#[test]
fn check_response_numeric_and_missing() {
    assert_eq!(parse_check_response(r#"{"result":1}"#).unwrap(), CheckStatus::InProgress);
    let err = parse_check_response(r#"{"other":1}"#).unwrap_err();
    assert_eq!(err.kind, ErrorKind::ParseFailed);
    assert_eq!(err.detail, "check response has no result field");
}

#[test]
fn urlencode_escapes_json() {
    assert_eq!(urlencode(r#"{"a":"b c"}"#), "%7B%22a%22%3A%22b%20c%22%7D");
    assert_eq!(urlencode("abc-_.~123"), "abc-_.~123");
}

#[test]
fn urlencode_utf8_bytes() {
    assert_eq!(urlencode("照"), "%E7%85%A7");
    assert_eq!(urlencode(""), "");
}

#[test]
fn urlencode_concatenates_and_decodes_back() {
    let a = "{\"a\":";
    let b = "\"b c/é\"}";
    let whole = format!("{a}{b}");
    assert_eq!(urlencode(&whole), format!("{}{}", urlencode(a), urlencode(b)));
    let enc = urlencode(&whole);
    let mut decoded: Vec<u8> = Vec::new();
    let bytes = enc.as_bytes();
    let mut i = 0;
    while i < bytes.len() {
        if bytes[i] == b'%' {
            decoded.push(u8::from_str_radix(&enc[i + 1..i + 3], 16).unwrap());
            i += 3;
        } else {
            decoded.push(bytes[i]);
            i += 1;
        }
    }
    assert_eq!(decoded, whole.as_bytes());
}
