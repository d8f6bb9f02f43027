use esp_s3_hal::ble::is_enabled;
use esp_s3_hal::ble_central::{
    local_name, name_from_ad_items, step, AdvReport, BleCmd, BleEvent, BleResp, LinkOp, LinkState,
    ScanCollector, ScanResult,
};
use esp_s3_hal::http::{cors_headers, CorsPreflight, CorsResponse};
use esp_s3_hal::net::{ap_ip_config, ap_ip_config_from, dhcp_plan, ApIpConfig};

fn error_text(r: &Option<BleResp>) -> Option<String> {
    match r {
        Some(BleResp::Error(e)) => Some(e.clone()),
        _ => None,
    }
}

#[test]
fn idle_refuses_link_commands() {
    for cmd in [
        BleCmd::Disconnect,
        BleCmd::DiscoverServices,
        BleCmd::ReadCharacteristic(3),
        BleCmd::WriteCharacteristic(3, vec![1]),
    ] {
        let s = step(LinkState::Idle, BleEvent::Command(cmd));
        assert_eq!(s.state, LinkState::Idle);
        assert_eq!(s.op, LinkOp::Nothing);
        assert_eq!(error_text(&s.reply), Some("not connected".to_string()));
    }
}

#[test]
fn scan_round_trip() {
    let s = step(LinkState::Idle, BleEvent::Command(BleCmd::Scan));
    assert_eq!((s.state, s.op), (LinkState::Scanning, LinkOp::StartScan));
    assert!(s.reply.is_none());
    let found = vec![ScanResult { addr: [1, 2, 3, 4, 5, 6], addr_type: 1, name: "x".into(), rssi: -40 }];
    let s = step(s.state, BleEvent::ScanDone(Ok(found)));
    assert_eq!(s.state, LinkState::Idle);
    let r = s.reply.unwrap().into_scan_results().unwrap();
    assert_eq!(r.len(), 1);
    assert_eq!(r[0].addr, [1, 2, 3, 4, 5, 6]);
    let s = step(LinkState::Scanning, BleEvent::ScanDone(Err("Timeout".into())));
    assert_eq!(error_text(&s.reply), Some("scan: Timeout".to_string()));
}

#[test]
fn connect_and_disconnect() {
    let addr = [0xff, 0x8f, 0x1b, 0x05, 0xe4, 0xff];
    let s = step(LinkState::Idle, BleEvent::Command(BleCmd::Connect(addr, 1)));
    assert_eq!((s.state, s.op), (LinkState::Connecting, LinkOp::StartConnect(addr)));
    let s = step(s.state, BleEvent::ConnectDone(Ok(())));
    assert_eq!(s.state, LinkState::Connected);
    assert_eq!(s.reply.unwrap().into_connected(), Ok(()));
    let s = step(LinkState::Connected, BleEvent::Command(BleCmd::Scan));
    assert_eq!((s.state, s.op), (LinkState::Connected, LinkOp::Nothing));
    assert_eq!(error_text(&s.reply), Some("already connected".to_string()));
    let s = step(LinkState::Connected, BleEvent::Command(BleCmd::ReadCharacteristic(3)));
    assert_eq!(s.state, LinkState::Connected);
    assert_eq!(s.reply.unwrap().into_read_data(), Err("already connected".to_string()));
    let s = step(LinkState::Connected, BleEvent::Command(BleCmd::Disconnect));
    assert_eq!((s.state, s.op), (LinkState::Idle, LinkOp::CloseLink));
    assert_eq!(s.reply.unwrap().into_disconnected(), Ok(()));
}

#[test]
fn failed_connect_returns_to_idle() {
    let s = step(LinkState::Connecting, BleEvent::ConnectDone(Err("Busy".into())));
    assert_eq!(s.state, LinkState::Idle);
    assert_eq!(error_text(&s.reply), Some("connect: Busy".to_string()));
}

#[test]
fn handler_replies() {
    assert_eq!(BleResp::Written.into_written(), Ok(()));
    assert_eq!(BleResp::ReadData(vec![1, 2]).into_read_data(), Ok(vec![1, 2]));
    assert_eq!(BleResp::Services(vec!["180f".into()]).into_services(), Ok(vec!["180f".to_string()]));
    assert_eq!(BleResp::Error("boom".into()).into_written(), Err("boom".to_string()));
    assert_eq!(BleResp::Connected.into_written(), Err("unexpected response".to_string()));
    assert_eq!(BleResp::Written.into_connected(), Err("unexpected response".to_string()));
    assert_eq!(BleResp::Written.into_disconnected(), Err("unexpected response".to_string()));
    assert_eq!(BleResp::Written.into_services(), Err("unexpected response".to_string()));
    assert_eq!(BleResp::Written.into_read_data(), Err("unexpected response".to_string()));
    assert!(BleResp::Written.into_scan_results().is_err());
}

#[test]
fn advertised_names() {
    // flags, then a complete local name "abcd"
    let data = [2u8, 0x01, 0x06, 5, 0x09, b'a', b'b', b'c', b'd'];
    assert_eq!(local_name(&data), "abcd");
    // a shortened name alone is not a complete one
    assert_eq!(local_name(&[3u8, 0x08, b'x', b'y']), "");
    // the last complete name wins
    assert_eq!(local_name(&[2u8, 0x09, b'p', 2, 0x09, b'q']), "q");
    assert_eq!(local_name(&[]), "");
    assert_eq!(name_from_ad_items(&vec![Some(b"one".to_vec()), None]), "one");
}

fn report(last: u8, name: &str) -> Option<AdvReport> {
    let mut data = vec![name.len() as u8 + 1, 0x09];
    data.extend_from_slice(name.as_bytes());
    Some(AdvReport { addr: [last, 0, 0, 0, 0, 0xc0], addr_kind: 1, rssi: -50, data })
}

#[test]
fn collector_skips_seen_devices() {
    let mut c = ScanCollector::new();
    c.on_adv_reports(&vec![report(1, "a"), report(2, "b"), report(1, "a2")]);
    c.on_adv_reports(&vec![report(2, "b"), report(3, "c")]);
    let r = c.drain();
    let names: Vec<&str> = r.iter().map(|x| x.name.as_str()).collect();
    assert_eq!(names, vec!["a", "b", "c"]);
    assert_eq!(r[1].addr, [2, 0, 0, 0, 0, 0xc0]);
    assert_eq!(r[1].addr_type, 1);
    assert_eq!(r[1].rssi, -50);
    // after a drain the same devices are new again
    c.on_adv_reports(&vec![report(1, "a")]);
    assert_eq!(c.drain().len(), 1);
    assert_eq!(c.drain().len(), 0);
}

#[test]
fn collector_stops_at_bad_report() {
    let mut c = ScanCollector::new();
    c.on_adv_reports(&vec![report(1, "a"), None, report(2, "b")]);
    assert_eq!(c.drain().len(), 1);
}

#[test]
fn collector_stops_at_32_results() {
    let mut c = ScanCollector::new();
    let reports: Vec<Option<AdvReport>> = (0..40u8).map(|i| report(i, "d")).collect();
    c.on_adv_reports(&reports);
    let r = c.drain();
    assert_eq!(r.len(), 32);
    assert_eq!(r[31].addr[0], 31);
}

#[test]
fn collector_full_of_known_devices_stays_unique() {
    let mut c = ScanCollector::new();
    let all: Vec<Option<AdvReport>> = (0..32u8).map(|i| report(i, "d")).collect();
    c.on_adv_reports(&all);
    // the same 32 devices again, over several batches
    let again: Vec<Option<AdvReport>> = (0..32u8).rev().map(|i| report(i, "x")).collect();
    c.on_adv_reports(&again);
    c.on_adv_reports(&vec![report(5, "y"), report(31, "z")]);
    let r = c.drain();
    assert_eq!(r.len(), 32);
    for (i, res) in r.iter().enumerate() {
        assert_eq!(res.addr[0], i as u8);
        assert_eq!(res.name, "d");
    }
}

#[test]
fn collector_evicts_oldest_when_full() {
    let mut c = ScanCollector::new();
    let reports: Vec<Option<AdvReport>> = (0..32u8).map(|i| report(i, "d")).collect();
    c.on_adv_reports(&reports);
    // one more new device: added, and device 0 leaves the cache
    c.on_adv_reports(&vec![report(100, "e")]);
    // device 0 is new again, device 1 is still remembered
    c.on_adv_reports(&vec![report(1, "f"), report(0, "g")]);
    let r = c.drain();
    assert_eq!(r.len(), 34);
    assert_eq!(r[33].addr[0], 0);
}

#[test]
fn access_point_addressing() {
    assert_eq!(
        ap_ip_config("192.168.2.1", "192.168.2.254", 24),
        Some(ApIpConfig { address: 0xC0A8_0201, prefix_len: 24, gateway: 0xC0A8_02FE })
    );
    assert_eq!(ap_ip_config("192.168.2", "192.168.2.1", 24), None);
    assert_eq!(ap_ip_config("192.168.2.1", "gateway", 24), None);
    assert_eq!(ap_ip_config_from(Some(1), None, 8), None);
    assert_eq!(ap_ip_config_from(Some(1), Some(2), 8), Some(ApIpConfig { address: 1, prefix_len: 8, gateway: 2 }));
    assert_eq!(
        ap_ip_config("10.0.0.1", "10.0.0.254", 32),
        Some(ApIpConfig { address: 0x0A00_0001, prefix_len: 32, gateway: 0x0A00_00FE })
    );
    assert_eq!(ap_ip_config("10.0.0.1", "10.0.0.254", 33), None);
    assert_eq!(ap_ip_config_from(Some(1), Some(2), 255), None);
}

#[test]
fn dhcp_pool() {
    let p = dhcp_plan();
    assert_eq!(p.server, 0xC0A8_0201);
    assert_eq!(p.pool_start, (192 << 24) | (168 << 16) | (2 << 8) | 50);
    assert_eq!(p.pool_end, (192 << 24) | (168 << 16) | (2 << 8) | 200);
    assert_eq!(p.lease_secs, 3600);
}

#[test]
fn cors_shapes() {
    let h = cors_headers();
    assert_eq!(h[0], ("Access-Control-Allow-Origin", "*"));
    assert_eq!(h[1], ("Access-Control-Allow-Methods", "GET, POST, OPTIONS"));
    assert_eq!(h[2], ("Access-Control-Allow-Headers", "Content-Type"));
    assert_eq!(CorsPreflight.status(), 204);
    assert_eq!(CorsResponse("{}").status(), 200);
}

#[test]
fn ble_feature_is_off() {
    assert!(!is_enabled());
}
