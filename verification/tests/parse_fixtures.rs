use ais::error::ErrorKind;
use ais::parse::{circuits, devices, generic, lenient_number, power};

fn lenient(text: &str) -> Option<f64> {
    let chars: Vec<char> = text.chars().collect();
    lenient_number(&chars).map(|v| v.into_iter().collect::<String>().parse::<f64>().unwrap())
}

#[test]
fn lenient_number_handles_units_and_separators() {
    assert_eq!(lenient("650W"), Some(650.0));
    assert_eq!(lenient("1,234W"), Some(1234.0));
    assert_eq!(lenient("0.5"), Some(0.5));
    assert_eq!(lenient("-"), None);
    assert_eq!(lenient(""), None);
    assert_eq!(lenient("  1.2kW "), Some(1.2));
}

#[test]
fn lenient_number_rejects_malformed_prefixes() {
    assert_eq!(lenient("1.2.3"), None);
    assert_eq!(lenient("."), None);
    assert_eq!(lenient("5-"), None);
    assert_eq!(lenient("-5"), Some(-5.0));
    assert_eq!(lenient("1，000"), Some(1000.0));
}

#[test]
fn rejects_missing_usage() {
    let err = power::parse_power("{}").unwrap_err();
    assert_eq!(err.kind, ErrorKind::ParseFailed);
}

#[test]
fn rejects_non_json() {
    let err = power::parse_power("<html></html>").unwrap_err();
    assert_eq!(err.kind, ErrorKind::ParseFailed);
}

#[test]
fn power_reading_fields() {
    let r = power::parse_power(
        r#"{"g_capacity":"3.4","u_capacity":1.2,"lo_buy_sell":1,"g_d_1_title":" 太陽光 ","g_d_1_capacity":"512W","g_d_2_title":"-","g_d_2_capacity":"1","g_d_3_title":"x"}"#,
    )
    .unwrap();
    assert_eq!(r.usage_kw, "1.2");
    assert_eq!(r.generation_kw.as_deref(), Some("3.4"));
    assert_eq!(r.buy_sell.as_deref(), Some("1"));
    assert_eq!(r.sources.len(), 1);
    assert_eq!(r.sources[0].name, "太陽光");
    assert_eq!(r.sources[0].power_w, "512");
}

#[test]
fn power_reading_missing_generation() {
    let r = power::parse_power(r#"{"u_capacity":"0.8"}"#).unwrap();
    assert_eq!(r.usage_kw, "0.8");
    assert_eq!(r.generation_kw, None);
    assert_eq!(r.buy_sell, None);
    assert!(r.sources.is_empty());
}

#[test]
fn circuits_selector_mismatch_returns_empty() {
    let entries = circuits::parse_circuit_page("<html><body><p>error</p></body></html>");
    assert!(entries.is_empty());
}

#[test]
fn circuits_inline_page() {
    let html = r#"<html><body>
        <div class="c_device"> リビング エアコン </div><div class="c_value">650W</div>
        <div class="c_device">玄関 コンセント</div><div class="c_value">0W</div>
        <div class="c_device">トイレ</div><div class="c_value">-</div>
    </body></html>"#;
    let entries = circuits::parse_circuit_page(html);
    assert_eq!(entries.len(), 3);
    assert_eq!(entries[0].name, "リビング エアコン");
    assert_eq!(entries[0].power.as_deref(), Some("650"));
    assert_eq!(entries[1].power.as_deref(), Some("0"));
    assert_eq!(entries[2].power, None);
}

#[test]
fn devices_menu_link_missing() {
    assert_eq!(devices::parse_devices_menu_link("<html></html>"), None);
}

#[test]
fn devices_menu_link_inline() {
    let html = r#"<html><body><div id="fmenu"><a href="/page/top">top</a><a href="/page/devices/device">機器</a></div>
        <a href="/page/devices/other">x</a></body></html>"#;
    assert_eq!(devices::parse_devices_menu_link(html).as_deref(), Some("/page/devices/device"));
}

#[test]
fn device_panels_inline() {
    let html = r#"<html><body>
        <div class="panel"><div class="kiki_title">照明</div><span>一括</span><a href="32i0">a</a><span>個別</span><a href="32i1?page=1">b</a></div>
        <div class="panel"><div class="kiki_title">エコキュート</div><span>一括</span><a href="33">c</a></div>
        <div class="panel"><div class="kiki_title">空気清浄機</div><span>個別</span><a href="32f?page=1">d</a></div>
    </body></html>"#;
    let panels = devices::parse_panels(html);
    assert_eq!(panels.len(), 2);
    assert_eq!(panels[0].kind, "照明");
    assert_eq!(panels[0].link, "32i1?page=1");
    assert_eq!(panels[1].kind, "空気清浄機");
    assert_eq!(panels[1].link, "32f?page=1");
    assert_eq!(devices::panel_page_id(&panels[0].link), "32i1");
    assert_eq!(devices::panel_page_id("32f"), "32f");
}

#[test]
fn device_page_inline() {
    let html = r#"<html><body><div id="main" token="123456">
        <div class="panel" nodeid="1073741825" eoj="0x029101" type="0x92" state="0x30">
            <div class="lighting_title">リビング照明</div><div class="lighting_state on"></div></div>
        <div class="panel" nodeid="1073741826" eoj="0x029102" type="0x92" state="0x31">
            <div class="lighting_title">ダイニング照明</div><div class="lighting_state"><span>x</span></div></div>
        <div class="panel" nodeid="1073741827" eoj="0x035101" type="0x35">
            <div class="kiki_title">エアイー</div><div class="kiki_state"><span class="on"></span></div></div>
    </div></body></html>"#;
    assert_eq!(devices::parse_token(html).as_deref(), Some("123456"));
    let found = devices::parse_device_panels(html);
    assert_eq!(found.len(), 3);
    assert_eq!(found[0].id, "1073741825:0x029101");
    assert_eq!(found[0].name, "リビング照明");
    assert_eq!(found[0].state, "on");
    assert_eq!(found[0].dev_type, "0x92");
    assert_eq!(found[0].state_attr.as_deref(), Some("0x30"));
    assert_eq!(found[1].name, "ダイニング照明");
    assert_eq!(found[1].state, "off");
    assert_eq!(found[2].state, "on");
    assert_eq!(found[2].state_attr, None);
    assert_eq!(found[2].kind, "");
}

#[test]
fn token_fallback_to_setting_value() {
    let html = r#"<div id="main"><div class="setting_value">98765</div></div>"#;
    assert_eq!(devices::parse_token(html).as_deref(), Some("98765"));
}

#[test]
fn token_fallback_to_control_attr() {
    let html = r#"<div id="main"><div class="control" token="55555"></div></div>"#;
    assert_eq!(devices::parse_token(html).as_deref(), Some("55555"));
}

#[test]
fn token_missing() {
    assert_eq!(devices::parse_token(r#"<div id="main" token=""></div>"#), None);
}

#[test]
fn fetch_extracts_id_values() {
    let html = r#"<html><body>
        <span id="val_kwh">12.3</span>
        <div id="empty"></div>
        <div id="nested">outer<span id="inner">inner</span></div>
    </body></html>"#;
    let page = generic::extract_page_values("/page/graph/51111", html);

    assert_eq!(page.path, "/page/graph/51111");
    assert_eq!(page.values.get("val_kwh").map(String::as_str), Some("12.3"));
    assert_eq!(page.values.get("inner").map(String::as_str), Some("inner"));
    // only the element's own text, so nested gives "outer"
    assert_eq!(page.values.get("nested").map(String::as_str), Some("outer"));
    assert!(!page.values.contains_key("empty"));
}

#[test]
fn fetch_later_id_replaces_earlier() {
    let html = r#"<p id="a">one</p><p id="a">two</p><p id="b"> x </p>"#;
    let page = generic::extract_page_values("/p", html);
    assert_eq!(page.values.get("a").map(String::as_str), Some("two"));
    assert_eq!(page.values.get("b").map(String::as_str), Some("x"));
    assert_eq!(page.values.len(), 2);
}

#[test]
fn fetch_values_come_sorted_by_id() {
    let html = r#"<p id="zeta">z</p><p id="Alpha">a</p><p id="é">e</p><p id="beta">b</p><p id="alpha2">c</p>"#;
    let page = generic::extract_page_values("/p", html);
    let keys: Vec<&str> = page.values.entries().iter().map(|(k, _)| k.as_str()).collect();
    assert_eq!(keys, vec!["Alpha", "alpha2", "beta", "zeta", "é"]);
    let values: Vec<&str> = page.values.entries().iter().map(|(_, v)| v.as_str()).collect();
    assert_eq!(values, vec!["a", "c", "b", "z", "e"]);
}
