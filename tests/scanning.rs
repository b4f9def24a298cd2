use trayle::connector::{ConnectorInfo, ConnectorState, Mode};
use trayle::crtc_mapper::{CrtcMapper, SimpleCrtcMapper};
use trayle::drm_scanner::{DrmScanEvent, DrmScanner};
use trayle::scanner::{classify, Anomaly, ConnectorScanEvent, ConnectorScanner, Transition};

fn mode(w: u32, h: u32, preferred: bool) -> Mode {
    Mode { width: w, height: h, refresh_mhz: 60_000, preferred }
}

fn port(handle: u32, state: ConnectorState, encoders: Vec<u32>, current: Option<u32>) -> ConnectorInfo {
    ConnectorInfo {
        handle,
        state,
        modes: vec![mode(1920, 1080, true)],
        encoders,
        current_crtc: current,
        non_desktop: false,
    }
}

#[test]
fn classify_covers_every_pairing() {
    let (up, down, unknown) = (ConnectorState::Connected, ConnectorState::Disconnected, ConnectorState::Unknown);
    assert_eq!(classify(None, up), Transition::Connect);
    assert_eq!(classify(None, down), Transition::FirstSeen);
    assert_eq!(classify(None, unknown), Transition::FirstSeen);
    assert_eq!(classify(Some(down), up), Transition::Connect);
    assert_eq!(classify(Some(unknown), up), Transition::Connect);
    assert_eq!(classify(Some(up), down), Transition::Disconnect);
    assert_eq!(classify(Some(up), up), Transition::Anomaly);
    assert_eq!(classify(Some(down), down), Transition::Anomaly);
    assert_eq!(classify(Some(unknown), unknown), Transition::Anomaly);
    assert_eq!(classify(Some(up), unknown), Transition::Anomaly);
    assert_eq!(classify(Some(unknown), down), Transition::Anomaly);
    assert_eq!(classify(Some(down), unknown), Transition::Anomaly);
}

#[test]
fn first_scan_reports_connected_ports() {
    let mut s = ConnectorScanner::new();
    let r = s.scan(vec![
        port(1, ConnectorState::Connected, vec![1], None),
        port(2, ConnectorState::Disconnected, vec![1], None),
    ]);
    assert_eq!(r.connected.len(), 1);
    assert_eq!(r.connected[0].handle, 1);
    assert!(r.disconnected.is_empty());
    assert!(r.anomalies.is_empty());
    assert_eq!(s.connectors().len(), 2);
}

#[test]
fn unplug_is_reported_and_snapshot_refreshed() {
    let mut s = ConnectorScanner::new();
    s.scan(vec![port(1, ConnectorState::Connected, vec![1], None)]);
    let r = s.scan(vec![port(1, ConnectorState::Disconnected, vec![1], None)]);
    assert!(r.connected.is_empty());
    assert_eq!(r.disconnected.len(), 1);
    assert_eq!(r.disconnected[0].handle, 1);
    assert_eq!(s.connectors()[0].state, ConnectorState::Disconnected);
    let events = r.iter();
    assert_eq!(events.len(), 1);
    assert!(matches!(&events[0], ConnectorScanEvent::Disconnected(c) if c.handle == 1));
}

#[test]
fn unknown_transitions_are_anomalies() {
    let mut s = ConnectorScanner::new();
    s.scan(vec![port(1, ConnectorState::Unknown, vec![1], None), port(2, ConnectorState::Connected, vec![1], None)]);
    let r = s.scan(vec![port(1, ConnectorState::Unknown, vec![1], None), port(2, ConnectorState::Unknown, vec![1], None)]);
    assert!(r.connected.is_empty());
    assert!(r.disconnected.is_empty());
    assert_eq!(r.anomalies, vec![
        Anomaly { handle: 1, before: ConnectorState::Unknown, after: ConnectorState::Unknown },
        Anomaly { handle: 2, before: ConnectorState::Connected, after: ConnectorState::Unknown },
    ]);
    let r = s.scan(vec![port(1, ConnectorState::Connected, vec![1], None)]);
    assert_eq!(r.connected.len(), 1);
}

#[test]
fn rescan_unchanged_is_quiet() {
    let ports = || vec![
        port(1, ConnectorState::Connected, vec![0b01], None),
        port(2, ConnectorState::Connected, vec![0b11], None),
        port(3, ConnectorState::Disconnected, vec![0b11], None),
    ];
    let crtcs = vec![10, 11];
    let mut s = DrmScanner::new();
    let first = s.scan_connectors(&crtcs, ports());
    assert_eq!(first.connected.len(), 2);
    let before: Vec<Option<u32>> = (1..=3).map(|c| s.crtc_for_connector(c)).collect();
    let second = s.scan_connectors(&crtcs, ports());
    assert!(second.connected.is_empty());
    assert!(second.disconnected.is_empty());
    assert_eq!(second.anomalies, vec![
        Anomaly { handle: 1, before: ConnectorState::Connected, after: ConnectorState::Connected },
        Anomaly { handle: 2, before: ConnectorState::Connected, after: ConnectorState::Connected },
        Anomaly { handle: 3, before: ConnectorState::Disconnected, after: ConnectorState::Disconnected },
    ]);
    let after: Vec<Option<u32>> = (1..=3).map(|c| s.crtc_for_connector(c)).collect();
    assert_eq!(before, after);
    assert_eq!(after, vec![Some(10), Some(11), None]);
}

#[test]
fn restores_engine_left_by_firmware() {
    let mut m = SimpleCrtcMapper::new();
    m.map(&vec![10, 11, 12], &vec![port(5, ConnectorState::Connected, vec![0b001], Some(12))]);
    assert_eq!(m.crtc_for_connector(5), Some(12));
}

#[test]
fn allocates_first_free_compatible_engine() {
    let mut m = SimpleCrtcMapper::new();
    // engine 11 is the only one encoder 0b110 allows before 12
    m.map(&vec![10, 11, 12], &vec![port(5, ConnectorState::Connected, vec![0b110], None)]);
    assert_eq!(m.crtc_for_connector(5), Some(11));
}

#[test]
fn keeps_assignment_when_another_port_arrives() {
    let crtcs = vec![1, 2];
    let mut s = DrmScanner::new();
    s.scan_connectors(&crtcs, vec![port(100, ConnectorState::Connected, vec![0b11], None)]);
    assert_eq!(s.crtc_for_connector(100), Some(1));
    let r = s.scan_connectors(&crtcs, vec![
        port(100, ConnectorState::Connected, vec![0b11], None),
        port(200, ConnectorState::Connected, vec![0b11], Some(1)),
    ]);
    assert_eq!(s.crtc_for_connector(100), Some(1));
    let b = s.crtc_for_connector(200);
    assert!(b.is_some());
    assert_ne!(b, Some(1));
    assert_eq!(r.connected.len(), 1);
    assert_eq!(r.connected[0].0.handle, 200);
    assert_eq!(r.connected[0].1, b);
}

#[test]
fn contention_never_shares_an_engine() {
    let mut m = SimpleCrtcMapper::new();
    let ports = vec![
        port(1, ConnectorState::Connected, vec![0b1], Some(7)),
        port(2, ConnectorState::Connected, vec![0b1], Some(7)),
        port(3, ConnectorState::Connected, vec![0b1], None),
    ];
    m.map(&vec![7], &ports);
    let got: Vec<Option<u32>> = (1..=3).map(|c| m.crtc_for_connector(c)).collect();
    assert_eq!(got, vec![Some(7), None, None]);
}

#[test]
fn releases_engine_on_disconnect() {
    let crtcs = vec![1];
    let mut s = DrmScanner::new();
    s.scan_connectors(&crtcs, vec![port(1, ConnectorState::Connected, vec![0b1], None)]);
    let r = s.scan_connectors(&crtcs, vec![
        port(1, ConnectorState::Disconnected, vec![0b1], None),
        port(2, ConnectorState::Connected, vec![0b1], None),
    ]);
    assert_eq!(r.disconnected.len(), 1);
    assert_eq!(r.disconnected[0].1, Some(1));
    assert_eq!(s.crtc_for_connector(1), None);
    assert_eq!(s.crtc_for_connector(2), Some(1));
    let events = r.iter();
    assert!(matches!(&events[0], DrmScanEvent::Disconnected { connector, crtc: Some(1) } if connector.handle == 1));
    assert!(matches!(&events[1], DrmScanEvent::Connected { connector, crtc: Some(1) } if connector.handle == 2));
    assert_eq!(s.crtcs().len(), 1);
}

#[test]
fn engine_mask_beyond_device_list_is_ignored() {
    let mut m = SimpleCrtcMapper::new();
    m.map(&vec![10], &vec![port(1, ConnectorState::Connected, vec![0b10], None)]);
    assert_eq!(m.crtc_for_connector(1), None);
}

#[test]
fn scanner_with_a_given_mapper() {
    let mut m = SimpleCrtcMapper::new();
    m.map(&vec![5], &vec![port(9, ConnectorState::Connected, vec![0b1], None)]);
    let mut s = DrmScanner::new_with_mapper(m);
    assert_eq!(s.crtc_for_connector(9), Some(5));
    let r = s.scan_connectors(&vec![5], vec![port(1, ConnectorState::Connected, vec![0b1], None)]);
    assert_eq!(r.connected.len(), 1);
    assert_eq!(r.connected[0].1, None);
    assert_eq!(s.crtc_mapper().crtc_for_connector(9), Some(5));
    assert_eq!(s.connectors().len(), 1);
}
