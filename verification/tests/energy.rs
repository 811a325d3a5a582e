use ais::error::ErrorKind;
use ais::parse::energy::{base64, catalog_from_script, graph_data_json, graph_path, kwh_from_text, parse_circuit_catalog, parse_val_kwh};

#[test]
fn base64_rfc4648_vectors() {
    assert_eq!(base64(b""), "");
    assert_eq!(base64(b"f"), "Zg==");
    assert_eq!(base64(b"fo"), "Zm8=");
    assert_eq!(base64(b"foo"), "Zm9v");
    assert_eq!(base64(b"foob"), "Zm9vYg==");
    assert_eq!(base64(b"fooba"), "Zm9vYmE=");
    assert_eq!(base64(b"foobar"), "Zm9vYmFy");
}

#[test]
fn base64_high_bytes_and_length() {
    assert_eq!(base64(&[0xff, 0xfe, 0xfd]), "//79");
    assert_eq!(base64(&[0u8; 7]).len(), 12);
}

#[test]
fn graph_data_json_circuit_only_matches_reference_impl() {
    assert_eq!(graph_data_json(Some("8"), None), r#"{"circuitid":"8"}"#);
}

#[test]
fn graph_data_json_with_date() {
    let json = graph_data_json(None, Some((2023, 9, 10)));
    let v: serde_json::Value = serde_json::from_str(&json).unwrap();
    let day = serde_json::Value::Array(vec![
        serde_json::Value::from(2023),
        serde_json::Value::from(9),
        serde_json::Value::from(10),
    ]);
    assert_eq!(v["day"], day);
    assert_eq!(v["term"], "2023/09/10");
    assert_eq!(v["termStr"], "day");
}

#[test]
fn graph_data_json_circuit_and_date_text() {
    assert_eq!(
        graph_data_json(Some("30"), Some((2026, 6, 9))),
        r#"{"circuitid":"30","day":[2026,6,9],"term":"2026/06/09","termStr":"day"}"#
    );
    assert_eq!(graph_data_json(None, None), "{}");
}

#[test]
fn graph_path_plain_without_params() {
    assert_eq!(graph_path(52111, None, None), "/page/graph/52111");
}

#[test]
fn graph_path_encodes_data() {
    let path = graph_path(584, Some("8"), None);
    // base64({"circuitid":"8"})
    assert_eq!(path, "/page/graph/584?data=eyJjaXJjdWl0aWQiOiI4In0=");
}

#[test]
fn val_kwh_missing_is_parse_failed() {
    let err = parse_val_kwh("<html><body></body></html>").unwrap_err();
    assert_eq!(err.kind, ErrorKind::ParseFailed);
}

#[test]
fn val_kwh_non_numeric_is_parse_failed() {
    let err = parse_val_kwh(r#"<span id="val_kwh">--</span>"#).unwrap_err();
    assert_eq!(err.kind, ErrorKind::ParseFailed);
    assert_eq!(err.detail, "#val_kwh is not numeric: \"--\"");
}

#[test]
fn val_kwh_reads_number() {
    let html = r#"<html><body><div class="graph"><span id="val_kwh"> 12.3 </span>kWh</div></body></html>"#;
    let kwh = parse_val_kwh(html).unwrap();
    assert_eq!(kwh, "12.3");
    assert_eq!(kwh.parse::<f64>().unwrap(), 12.3);
}

#[test]
fn energy_catalog_selector_mismatch() {
    let err = parse_circuit_catalog("<html><body></body></html>").unwrap_err();
    assert_eq!(err.kind, ErrorKind::ParseFailed);
}

#[test]
fn energy_circuit_catalog_inline() {
    let html = r#"<html><head><script>
        window.onload = init({"arrayCircuitNameList":[
            {"strId":"30","strCircuit":"リビング エアコン","strBtnType":"1"},
            {"strId":"31","strCircuit":"IH クッキングヒーター","strBtnType":"1"},
            {"strId":"40","strCircuit":"使用しない","strBtnType":"0"},
            {"strId":"32","strCircuit":" ","strBtnType":"1"}
        ]});
    </script></head><body></body></html>"#;
    let catalog = parse_circuit_catalog(html).unwrap();
    assert_eq!(catalog.len(), 3);
    assert_eq!(catalog[0].id, "30");
    assert_eq!(catalog[0].name, "リビング エアコン");
    assert_eq!(catalog[1].name, "IH クッキングヒーター");
    assert_eq!(catalog[2].name, "Circuit 32");
}

#[test]
fn catalog_errors() {
    let err = parse_circuit_catalog("<script>var arrayCircuitNameList = 1;</script>").unwrap_err();
    assert_eq!(err.detail, "init(...) call not found in circuit catalog script");
    let err = parse_circuit_catalog("<script>init({arrayCircuitNameList: 1})</script>").unwrap_err();
    assert!(err.detail.starts_with("circuit catalog JSON is invalid: "));
    let err = parse_circuit_catalog(r#"<script>init({"arrayCircuitNameList": 1})</script>"#).unwrap_err();
    assert_eq!(err.detail, "arrayCircuitNameList is not an array");
}

#[test]
fn kwh_from_text_reads_or_explains() {
    assert_eq!(kwh_from_text(" 1,234.5kWh ").unwrap(), "1234.5");
    let err = kwh_from_text(" -- ").unwrap_err();
    assert_eq!(err.kind, ErrorKind::ParseFailed);
    assert_eq!(err.detail, "#val_kwh is not numeric: \"--\"");
}

#[test]
fn catalog_from_script_reads_init_argument() {
    let script = r#"var x = 1; init( {"arrayCircuitNameList":[{"strBtnType":"1","strId":"7","strCircuit":"Kitchen"},{"strBtnType":"0","strId":"8","strCircuit":"Off"}]} );"#;
    let c = catalog_from_script(script).unwrap();
    assert_eq!(c.len(), 1);
    assert_eq!(c[0].id, "7");
    assert_eq!(c[0].name, "Kitchen");
    let err = catalog_from_script("init)(").unwrap_err();
    assert_eq!(err.detail, "init(...) call not found in circuit catalog script");
}

#[test]
fn base64_whole_groups_concatenate() {
    assert_eq!(base64(b"foobar"), format!("{}{}", base64(b"foo"), base64(b"bar")));
    assert_eq!(base64(b"fooba"), format!("{}{}", base64(b"foo"), base64(b"ba")));
    assert_eq!(base64(&[0xff, 0x00, 0x10, 0x7f]), format!("{}{}", base64(&[0xff, 0x00, 0x10]), base64(&[0x7f])));
}
