use trayle::connector::{ConnectorInfo, ConnectorState, Mode};
use trayle::lease::{lease_planes, EnginePlanes, LeaseError, LeaseGrant, PlaneClaim};
use trayle::quirks::{mentions_nvidia, output_overlay_planes, skip_overlay_planes};
use trayle::registry::{select_mode, HotplugError, OutputEvent, Registry, RendererKind};
use trayle::schedule::{ScheduleAction, SubmitError};

fn mode(w: u32, preferred: bool) -> Mode {
    Mode { width: w, height: 1080, refresh_mhz: 60_000, preferred }
}

fn port(handle: u32, state: ConnectorState, mask: u32, non_desktop: bool, modes: Vec<Mode>) -> ConnectorInfo {
    ConnectorInfo { handle, state, modes, encoders: vec![mask], current_crtc: None, non_desktop }
}

#[test]
fn picks_preferred_mode_else_first() {
    assert_eq!(select_mode(&vec![mode(800, false), mode(1920, true), mode(1280, true)]), Some(mode(1920, true)));
    assert_eq!(select_mode(&vec![mode(800, false), mode(1024, false)]), Some(mode(800, false)));
    assert_eq!(select_mode(&vec![]), None);
}

#[test]
fn outputs_are_packed_left_to_right() {
    let mut reg = Registry::new(1, false);
    let events = reg
        .device_added(1, 1, true, &vec![10, 11], vec![
            port(1, ConnectorState::Connected, 0b11, false, vec![mode(1920, true)]),
            port(2, ConnectorState::Connected, 0b11, false, vec![mode(1280, false)]),
        ])
        .unwrap();
    assert_eq!(events.len(), 2);
    match (&events[0], &events[1]) {
        (OutputEvent::OutputCreated { node: 1, surface: a }, OutputEvent::OutputCreated { node: 1, surface: b }) => {
            assert_eq!((a.crtc, a.connector, a.x), (10, 1, 0));
            assert_eq!((b.crtc, b.connector, b.x), (11, 2, 1920));
        },
        _ => panic!("unexpected events"),
    }
    assert_eq!(reg.next_x(), 3200);
    assert_eq!(reg.render_targets(1, None), vec![10, 11]);
    assert_eq!(reg.render_targets(1, Some(11)), vec![11]);
    assert_eq!(reg.render_targets(1, Some(12)), Vec::<u32>::new());
    assert_eq!(reg.device_added(1, 1, true, &vec![], vec![]), Err(HotplugError::AlreadyAdded));
}

#[test]
fn non_desktop_port_is_offered_for_leasing() {
    let mut reg = Registry::new(1, false);
    let events = reg
        .device_added(1, 1, true, &vec![10, 11], vec![
            port(1, ConnectorState::Connected, 0b01, false, vec![mode(1920, true)]),
            port(2, ConnectorState::Connected, 0b10, true, vec![mode(2160, true)]),
        ])
        .unwrap();
    assert!(events.contains(&OutputEvent::LeaseOffered { node: 1, connector: 2, crtc: 11 }));
    assert_eq!(reg.render_targets(1, None), vec![10]);
    assert_eq!(reg.lease_request(1, &vec![2]), Ok(vec![(2, 11)]));
    assert_eq!(reg.lease_request(1, &vec![1]), Err(LeaseError::DesktopConnector));
    assert_eq!(reg.lease_request(1, &vec![2, 1]), Err(LeaseError::DesktopConnector));
    assert_eq!(reg.lease_request(9, &vec![2]), Err(LeaseError::UnknownDevice));
    let events = reg.device_changed(1, &vec![10, 11], vec![
        port(1, ConnectorState::Connected, 0b01, false, vec![mode(1920, true)]),
        port(2, ConnectorState::Disconnected, 0b10, true, vec![]),
    ]);
    assert_eq!(events, vec![OutputEvent::LeaseWithdrawn { node: 1, connector: 2 }]);
    assert_eq!(reg.lease_request(1, &vec![2]), Err(LeaseError::DesktopConnector));
}

#[test]
fn lease_needs_a_primary_plane() {
    let none = vec![PlaneClaim { plane: 1, claimed: false }];
    assert_eq!(lease_planes(&none, &vec![]), Err(LeaseError::NoPrimaryPlane));
    let primary = vec![PlaneClaim { plane: 1, claimed: false }, PlaneClaim { plane: 2, claimed: true }];
    let cursor = vec![PlaneClaim { plane: 5, claimed: true }];
    assert_eq!(lease_planes(&primary, &cursor), Ok((2, Some(5))));
    assert_eq!(lease_planes(&primary, &vec![]), Ok((2, None)));
}

#[test]
fn leases_end_with_notification_or_session_pause() {
    let mut reg = Registry::new(1, false);
    reg.device_added(1, 1, true, &vec![], vec![]).unwrap();
    reg.new_active_lease(1, 4);
    reg.new_active_lease(1, 5);
    reg.new_active_lease(1, 4);
    assert_eq!(reg.device(1).unwrap().active_leases(), &vec![4, 5, 4]);
    reg.lease_destroyed(1, 4);
    assert_eq!(reg.device(1).unwrap().active_leases(), &vec![5]);
    reg.lease_destroyed(9, 5);
    assert_eq!(reg.device(1).unwrap().active_leases(), &vec![5]);
    reg.pause_session();
    assert!(reg.device(1).unwrap().active_leases().is_empty());
    assert_eq!(reg.activate_session(), vec![1]);
    assert_eq!(reg.device(1).unwrap().node(), 1);
}

#[test]
fn removing_a_device_tears_everything_down() {
    let mut reg = Registry::new(1, false);
    reg.device_added(1, 1, true, &vec![10, 11], vec![
        port(1, ConnectorState::Connected, 0b01, false, vec![mode(1920, true)]),
        port(2, ConnectorState::Connected, 0b10, true, vec![mode(1920, true)]),
    ])
    .unwrap();
    reg.device_added(2, 2, false, &vec![20], vec![
        port(1, ConnectorState::Connected, 0b1, false, vec![mode(1280, true)]),
    ])
    .unwrap();
    let events = reg.device_removed(1).unwrap();
    assert_eq!(events, vec![
        OutputEvent::OutputRemoved { node: 1, crtc: 10, connector: 1 },
        OutputEvent::LeaseWithdrawn { node: 1, connector: 2 },
    ]);
    assert_eq!(reg.render_targets(1, None), Vec::<u32>::new());
    assert_eq!(reg.render_targets(1, Some(10)), Vec::<u32>::new());
    assert!(reg.surface(1, 10).is_none());
    assert_eq!(reg.lease_request(1, &vec![2]), Err(LeaseError::UnknownDevice));
    assert_eq!(reg.render_targets(2, None), vec![20]);
    assert!(reg.surface(2, 20).is_some());
    assert_eq!(reg.next_x(), 1280);
    assert_eq!(reg.device_removed(1), Err(HotplugError::Untracked));
}

#[test]
fn renderer_follows_render_gpu() {
    let mut reg = Registry::new(1, true);
    reg.device_added(2, 3, false, &vec![20], vec![port(1, ConnectorState::Connected, 0b1, false, vec![mode(800, true)])])
        .unwrap();
    let s = reg.surface(2, 20).unwrap();
    assert!(s.disable_direct_scanout);
    assert_eq!(reg.renderer_for(&s, 7), RendererKind::CrossGpu { format: 7 });
    assert!(!reg.same_gpu(&s));
    let mut reg = Registry::new(3, false);
    reg.device_added(2, 3, false, &vec![20], vec![port(1, ConnectorState::Connected, 0b1, false, vec![mode(800, true)])])
        .unwrap();
    let s = reg.surface(2, 20).unwrap();
    assert_eq!(reg.renderer_for(&s, 7), RendererKind::SingleGpu);
}

#[test]
fn overlay_quirk_matches_vendor_in_any_case() {
    assert!(skip_overlay_planes("NVIDIA-DRM", "whatever"));
    assert!(skip_overlay_planes("drm", "The Nvidia driver"));
    assert!(!skip_overlay_planes("i915", "Intel Graphics"));
    assert!(!mentions_nvidia("NVIDIA"));
    assert!(mentions_nvidia("xnvidia"));
    assert!(mentions_nvidia("nvidia"));
    assert!(!mentions_nvidia("nvidi"));
    assert!(!mentions_nvidia(""));
}

fn one_output_registry() -> Registry {
    let mut reg = Registry::new(1, false);
    reg.device_added(1, 1, true, &vec![10], vec![port(1, ConnectorState::Connected, 0b1, false, vec![mode(1920, true)])])
        .unwrap();
    reg
}

#[test]
fn device_inactive_waits_for_session_resume() {
    let mut reg = one_output_registry();
    let d = reg.frame_event(1, 10, Some(1_000), 2_000, Some(3), None).unwrap();
    assert_eq!(d.action, ScheduleAction::Timer { delay_ns: 9_999_999, target_ns: 16_667_666 });
    assert_eq!(reg.render_targets(1, Some(10)), vec![10]);
    let d = reg.frame_event(1, 10, Some(1_000), 2_000, Some(4), Some(SubmitError::DeviceInactive)).unwrap();
    assert_eq!(d.action, ScheduleAction::Suspend);
    assert!(reg.render_targets(1, Some(10)).is_empty());
    assert!(reg.render_targets(1, None).is_empty());
    // later events arm nothing either while the session is away
    let r = reg.render_done(1, 10, Ok(false), 1_000, 2_000).unwrap();
    assert!(matches!(r.action, ScheduleAction::Timer { .. }));
    assert!(reg.render_targets(1, Some(10)).is_empty());
    assert_eq!(reg.activate_session(), vec![1]);
    assert_eq!(reg.render_targets(1, None), vec![10]);
}

#[test]
fn lost_context_halts_only_its_device() {
    let mut reg = one_output_registry();
    reg.device_added(2, 2, false, &vec![20], vec![port(1, ConnectorState::Connected, 0b1, false, vec![mode(800, true)])])
        .unwrap();
    let r = reg.render_done(1, 10, Err(SubmitError::ContextLost), 0, 0).unwrap();
    assert_eq!(r.action, ScheduleAction::Halt);
    assert!(reg.render_targets(1, None).is_empty());
    assert_eq!(reg.render_targets(2, None), vec![20]);
    reg.pause_session();
    assert!(reg.render_targets(2, None).is_empty());
    reg.activate_session();
    assert_eq!(reg.render_targets(2, None), vec![20]);
    assert!(reg.render_targets(1, None).is_empty());
}

#[test]
fn late_callbacks_after_removal_find_nothing() {
    let mut reg = one_output_registry();
    reg.device_removed(1).unwrap();
    assert!(reg.frame_event(1, 10, None, 5, None, None).is_none());
    assert!(reg.render_done(1, 10, Ok(true), 0, 0).is_none());
    assert!(reg.render_targets(1, None).is_empty());
}

#[test]
fn unchanged_rescan_asks_for_nothing() {
    let ports = || vec![
        port(1, ConnectorState::Connected, 0b01, false, vec![mode(1920, true)]),
        port(2, ConnectorState::Connected, 0b10, true, vec![mode(1920, true)]),
    ];
    let mut reg = Registry::new(1, false);
    let first = reg.device_added(1, 1, true, &vec![10, 11], ports()).unwrap();
    assert_eq!(first.len(), 2);
    let again = reg.device_changed(1, &vec![10, 11], ports());
    assert!(again.is_empty());
    assert_eq!(reg.render_targets(1, None), vec![10]);
    assert_eq!(reg.next_x(), 1920);
    assert!(reg.device_changed(7, &vec![10, 11], ports()).is_empty());
}

#[test]
fn overlay_planes_dropped_only_for_the_quirky_driver() {
    assert_eq!(output_overlay_planes("nvidia-drm", "NVIDIA DRM driver", vec![3, 4]), Vec::<u32>::new());
    assert_eq!(output_overlay_planes("amdgpu", "AMD GPU", vec![3, 4]), vec![3, 4]);
}

fn claims(primary: &[(u32, bool)], cursor: &[(u32, bool)]) -> EnginePlanes {
    EnginePlanes {
        primary: primary.iter().map(|&(plane, claimed)| PlaneClaim { plane, claimed }).collect(),
        cursor: cursor.iter().map(|&(plane, claimed)| PlaneClaim { plane, claimed }).collect(),
    }
}

#[test]
fn lease_grant_is_all_or_nothing() {
    let mut reg = Registry::new(1, false);
    reg.device_added(1, 1, true, &vec![10, 11, 12], vec![
        port(1, ConnectorState::Connected, 0b001, false, vec![mode(1920, true)]),
        port(2, ConnectorState::Connected, 0b010, true, vec![mode(1920, true)]),
        port(3, ConnectorState::Connected, 0b100, true, vec![mode(1920, true)]),
    ])
    .unwrap();
    let good = vec![claims(&[(20, false), (21, true)], &[(30, true)]), claims(&[(22, true)], &[(31, false)])];
    assert_eq!(reg.grant_lease(1, &vec![2, 3], &good), Ok(vec![
        LeaseGrant { connector: 2, crtc: 11, primary_plane: 21, cursor_plane: Some(30) },
        LeaseGrant { connector: 3, crtc: 12, primary_plane: 22, cursor_plane: None },
    ]));
    let bad = vec![claims(&[(21, true)], &[]), claims(&[(22, false)], &[])];
    assert_eq!(reg.grant_lease(1, &vec![2, 3], &bad), Err(LeaseError::NoPrimaryPlane));
    assert_eq!(reg.grant_lease(1, &vec![2, 3], &vec![claims(&[(21, true)], &[])]), Err(LeaseError::NoPrimaryPlane));
    assert_eq!(reg.grant_lease(1, &vec![2, 1], &good), Err(LeaseError::DesktopConnector));
    assert_eq!(reg.grant_lease(5, &vec![2], &good), Err(LeaseError::UnknownDevice));
}
