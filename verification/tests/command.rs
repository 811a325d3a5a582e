use ais::command::{
    check_body, check_path, circuit_page_path, circuit_page_step, control_result, date_text, device_kind_panels,
    device_page_path, devices_menu, page_path, parse_date, plan_control, poll_step, select_device, ControlPlan,
    DeviceScan, PageStep, PollStep,
};
use ais::control::CheckStatus;
use ais::error::{AisError, ErrorKind};
use ais::parse::circuits::Circuit;
use ais::parse::devices::{Device, Panel};

#[test]
fn parse_date_accepts_and_rejects() {
    assert_eq!(parse_date("2026-06-09"), Ok((2026, 6, 9)));
    assert_eq!(parse_date("2023-9-10"), Ok((2023, 9, 10)));
    assert_eq!(parse_date("+2023-09-10"), Ok((2023, 9, 10)));
    assert_eq!(parse_date("1999-01-01"), Err("invalid date '1999-01-01' (expected YYYY-MM-DD)".to_string()));
    assert!(parse_date("2023-13-01").is_err());
    assert!(parse_date("2023-12-32").is_err());
    assert!(parse_date("2023-12").is_err());
    assert!(parse_date("2023-12-01-01").is_err());
    assert!(parse_date("2023--1-01").is_err());
    assert!(parse_date("99999999999-01-01").is_err());
}

#[test]
fn date_text_round_trips() {
    assert_eq!(date_text(2026, 6, 9), "2026-06-09");
    assert_eq!(parse_date(&date_text(2026, 6, 9)), Ok((2026, 6, 9)));
}

#[test]
fn page_path_adds_slash() {
    assert_eq!(page_path("page/graph/51111"), "/page/graph/51111");
    assert_eq!(page_path("/page/graph/51111"), "/page/graph/51111");
}

fn circuit(name: &str, w: Option<i64>) -> Circuit {
    Circuit { name: name.to_string(), power_w: w }
}

#[test]
fn circuit_scan_steps() {
    assert_eq!(circuit_page_path(2), "/page/electricflow/1113?id=2&request_by_form=1");
    match circuit_page_step(1, &vec![], &vec![]) {
        PageStep::Fail(e) => assert_eq!(e.kind, ErrorKind::ParseFailed),
        _ => panic!("an empty first page is a mismatch"),
    }
    assert!(matches!(circuit_page_step(2, &vec![], &vec![]), PageStep::Stop));
    let page = vec![circuit("a", Some(650)), circuit("b", Some(8))];
    assert!(matches!(circuit_page_step(1, &page, &vec![]), PageStep::Take { last: false }));
    assert!(matches!(circuit_page_step(2, &page, &vec![circuit("a", Some(650)), circuit("b", Some(8))]), PageStep::Stop));
    let tail = vec![circuit("c", Some(5)), circuit("d", Some(0)), circuit("e", None)];
    assert!(matches!(circuit_page_step(2, &tail, &page), PageStep::Take { last: true }));
    assert!(matches!(circuit_page_step(2, &vec![circuit("e", None)], &page), PageStep::Take { last: true }));
}

fn device(id: &str, name: &str, kind: &str, state: &str) -> Device {
    Device {
        id: id.into(),
        name: name.into(),
        kind: kind.into(),
        state: state.into(),
        node_id: id.split(':').next().unwrap().into(),
        eoj: "0x029101".into(),
        dev_type: "0x92".into(),
        link: "32i1".into(),
        token: "123456".into(),
        state_attr: None,
    }
}

#[test]
fn select_device_by_name_id_or_node() {
    let all = vec![device("1:a", "リビング照明", "照明", "off"), device("2:b", "エアイー", "空気清浄機", "on")];
    assert_eq!(select_device(&all, "エアイー").unwrap(), 1);
    assert_eq!(select_device(&all, "1:a").unwrap(), 0);
    assert_eq!(select_device(&all, "2").unwrap(), 1);
    let err = select_device(&all, "nope").unwrap_err();
    assert_eq!(err.kind, ErrorKind::DeviceNotFound);
    assert_eq!(err.detail, "device not found in control list: nope");
}

#[test]
fn select_device_ambiguous() {
    let all = vec![device("1:a", "照明", "照明", "off"), device("2:b", "照明", "照明", "on"), device("3:c", "x", "照明", "on")];
    let err: AisError = select_device(&all, "照明").unwrap_err();
    assert_eq!(err.kind, ErrorKind::DeviceAmbiguous);
    assert_eq!(err.detail, "multiple devices match '照明': 1:a, 2:b (specify by id)");
    assert_eq!(err.kind.exit_code(), 11);
}

#[test]
fn plan_control_cases() {
    let toggle = device("2:b", "エアイー", "空気清浄機", "on");
    assert!(matches!(plan_control(&toggle, true), ControlPlan::Unchanged));
    match plan_control(&toggle, false) {
        ControlPlan::Send { path, body } => {
            assert_eq!(path, "/action/devices/device/32i1/change");
            assert!(body.starts_with("data=%7B"));
            assert!(body.contains("%22state%22%3A%220x30%22"));
        }
        _ => panic!("expected a request"),
    }
    let light = device("1:a", "リビング照明", "照明", "on");
    match plan_control(&light, true) {
        ControlPlan::Send { body, .. } => assert!(body.contains("%22onoff%22%3A%220x30%22")),
        _ => panic!("lighting always sends"),
    }
    let mut no_token = device("1:a", "リビング照明", "照明", "off");
    no_token.token = String::new();
    match plan_control(&no_token, true) {
        ControlPlan::Fail(e) => assert_eq!(e.kind, ErrorKind::ParseFailed),
        _ => panic!("expected a failure"),
    }
    let r = control_result(&light, false, true, true);
    assert_eq!((r.requested, r.result, r.confirmed, r.changed), ("off", "ok", true, true));
}

#[test]
fn confirm_steps() {
    let d = device("1:a", "x", "照明", "off");
    assert_eq!(check_path(&d), "/data/devices/device/32i1/check");
    assert_eq!(check_body(&d, "7"), "data=%7B%22acceptId%22%3A%227%22%2C%22type%22%3A%220x92%22%7D");
    assert!(matches!(poll_step(CheckStatus::Done, 1, "7"), PollStep::Confirmed));
    assert!(matches!(poll_step(CheckStatus::InProgress, 5, "7"), PollStep::Again));
    match poll_step(CheckStatus::InProgress, 6, "7") {
        PollStep::Fail(e) => {
            assert_eq!(e.kind, ErrorKind::ControlRejected);
            assert_eq!(e.detail, "control result unconfirmed after 6 checks (acceptId: 7)");
        }
        _ => panic!("expected the last check to fail"),
    }
    match poll_step(CheckStatus::Failed("2".into()), 1, "7") {
        PollStep::Fail(e) => assert_eq!(e.detail, "control result check failed (result: 2)"),
        _ => panic!("expected a failure"),
    }
}

const PAGE_TWO_LIGHTS: &str = r#"<div id="main" token="t1">
    <div class="panel" nodeid="1" eoj="0x1" type="0x92"><div class="a_title">A</div><div class="a_state on"></div></div>
    <div class="panel" nodeid="2" eoj="0x2" type="0x92"><div class="b_title">B</div><div class="b_state"></div></div>
</div>"#;

#[test]
fn device_scan_walks_kinds() {
    assert_eq!(devices_menu(r#"<div id="fmenu"><a href="/page/devices/device">x</a></div>"#).unwrap(), "/page/devices/device");
    assert_eq!(devices_menu("<p></p>").unwrap_err().kind, ErrorKind::ParseFailed);
    assert_eq!(device_kind_panels("<p></p>").unwrap_err().kind, ErrorKind::ParseFailed);
    assert_eq!(device_page_path("32i1?page=1", 2), "/page/devices/device/32i1?page=1&individual_page=2");
    assert_eq!(device_page_path("32f", 1), "/page/devices/device/32f?individual_page=1");

    let panels = vec![
        Panel { kind: "照明".into(), link: "32i1?page=1".into() },
        Panel { kind: "空気清浄機".into(), link: "32f?page=1".into() },
    ];
    let mut scan = DeviceScan::new(panels);
    assert_eq!(scan.next_path().unwrap(), "/page/devices/device/32i1?page=1&individual_page=1");
    scan.feed(PAGE_TWO_LIGHTS);
    // fewer than eight devices: the kind is done
    assert_eq!(scan.next_path().unwrap(), "/page/devices/device/32f?page=1&individual_page=1");
    scan.feed("<p>none</p>");
    assert_eq!(scan.next_path(), None);
    let found = scan.finish();
    assert_eq!(found.len(), 2);
    assert_eq!(found[0].kind, "照明");
    assert_eq!(found[0].link, "32i1");
    assert_eq!(found[0].token, "t1");
    assert_eq!(found[0].state, "on");
    assert_eq!(found[1].name, "B");
}
