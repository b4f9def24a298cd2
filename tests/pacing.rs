use trayle::feedback::{
    color_formats, scanout_tranche, surface_dmabuf_feedback, Format, ABGR2101010, ABGR8888, ARGB2101010, ARGB8888,
};
use trayle::schedule::{
    after_render, frame_duration_ns, on_frame_event, repaint_delay_ns, ScheduleAction, SubmitError,
};

fn f(code: u32, modifier: u64) -> Format {
    Format { code, modifier }
}

#[test]
fn scanout_tranche_keeps_only_renderable_plane_formats() {
    let primary = vec![f(1, 0), f(2, 0)];
    let render = vec![f(3, 0)];
    let planes = vec![f(4, 0), f(2, 0), f(3, 0), f(2, 0), f(1, 7)];
    let t = scanout_tranche(&planes, &primary, &render);
    assert_eq!(t, vec![f(2, 0), f(3, 0)]);
    for x in &t {
        assert!(primary.contains(x) || render.contains(x));
    }
}

#[test]
fn feedback_tranches() {
    let primary = vec![f(1, 0), f(2, 0)];
    let render = vec![f(2, 0), f(3, 0)];
    let planes = vec![f(3, 0), f(9, 0)];
    let fb = surface_dmabuf_feedback(100, 200, 300, &primary, &render, &planes);
    assert_eq!(fb.render_feedback.main_device, 100);
    assert_eq!(fb.render_feedback.main_formats, primary);
    assert_eq!(fb.render_feedback.tranches.len(), 1);
    assert_eq!(fb.render_feedback.tranches[0].device, 200);
    assert!(!fb.render_feedback.tranches[0].scanout);
    assert_eq!(fb.render_feedback.tranches[0].formats, render);
    assert_eq!(fb.scanout_feedback.tranches.len(), 2);
    assert_eq!(fb.scanout_feedback.tranches[0].device, 300);
    assert!(fb.scanout_feedback.tranches[0].scanout);
    assert_eq!(fb.scanout_feedback.tranches[0].formats, vec![f(3, 0)]);
    assert_eq!(fb.scanout_feedback.tranches[1].device, 200);
    assert_eq!(fb.scanout_feedback.tranches[1].formats, render);
}

#[test]
fn color_formats_with_and_without_ten_bit() {
    assert_eq!(color_formats(false), vec![ABGR2101010, ARGB2101010, ABGR8888, ARGB8888]);
    assert_eq!(color_formats(true), vec![ABGR8888, ARGB8888]);
    assert_eq!(ABGR8888.to_le_bytes(), *b"AB24");
    assert_eq!(ARGB2101010.to_le_bytes(), *b"AR30");
}

#[test]
fn repaint_delay_at_sixty_hertz() {
    assert_eq!(frame_duration_ns(60_000), 16_666_666);
    let d = repaint_delay_ns(60_000, true);
    assert_eq!(d, 9_999_999);
    assert!((d as f64 / 1e6 - 0.6 * (1000.0 / 60.0)).abs() < 0.01);
    assert_eq!(repaint_delay_ns(60_000, false), 0);
    assert_eq!(repaint_delay_ns(144_000, false), 0);
}

#[test]
fn vblank_with_hardware_clock_arms_delayed_repaint() {
    let d = on_frame_event(Some(1_000_000_000), 5, Some(42), None, 60_000, true);
    let p = d.presentation.unwrap();
    assert_eq!(p.time_ns, 1_000_000_000);
    assert_eq!(p.sequence, 42);
    assert!(p.flags.vsync && p.flags.hw_clock && p.flags.hw_completion);
    assert_eq!(d.action, ScheduleAction::Timer { delay_ns: 9_999_999, target_ns: 1_016_666_666 });
}

#[test]
fn vblank_without_hardware_clock_uses_software_clock() {
    let d = on_frame_event(None, 500, None, None, 60_000, false);
    let p = d.presentation.unwrap();
    assert_eq!(p.time_ns, 500);
    assert_eq!(p.sequence, 0);
    assert!(p.flags.vsync && !p.flags.hw_clock && !p.flags.hw_completion);
    assert_eq!(d.action, ScheduleAction::Timer { delay_ns: 0, target_ns: 16_667_166 });
}

#[test]
fn inactive_device_arms_no_timer() {
    let d = on_frame_event(Some(7), 9, Some(1), Some(SubmitError::DeviceInactive), 60_000, true);
    assert_eq!(d.action, ScheduleAction::Suspend);
    assert!(d.presentation.is_none());
    let d = on_frame_event(Some(7), 9, Some(1), Some(SubmitError::PermissionDenied), 60_000, true);
    assert_eq!(d.action, ScheduleAction::Suspend);
    let d = on_frame_event(Some(7), 9, Some(1), Some(SubmitError::AlreadySwapped), 60_000, true);
    assert!(matches!(d.action, ScheduleAction::Timer { .. }));
    let d = on_frame_event(Some(7), 9, Some(1), Some(SubmitError::ContextLost), 60_000, true);
    assert_eq!(d.action, ScheduleAction::Halt);
}

#[test]
fn render_outcomes() {
    let r = after_render(Ok(true), 1_000, 2_000, 60_000);
    assert!(r.queue_feedback);
    assert_eq!(r.action, ScheduleAction::AwaitVblank);
    let r = after_render(Ok(false), 1_000, 2_000, 60_000);
    assert!(!r.queue_feedback);
    assert_eq!(r.action, ScheduleAction::Timer { delay_ns: 16_665_666, target_ns: 16_667_666 });
    let r = after_render(Err(SubmitError::DeviceInactive), 1_000, 2_000, 60_000);
    assert_eq!(r.action, ScheduleAction::Timer { delay_ns: 16_665_666, target_ns: 16_667_666 });
    let r = after_render(Err(SubmitError::TestFailed), 1_000, 2_000, 60_000);
    assert!(r.reset_device);
    assert!(matches!(r.action, ScheduleAction::Timer { .. }));
    let r = after_render(Err(SubmitError::ContextLost), 1_000, 2_000, 60_000);
    assert_eq!(r.action, ScheduleAction::Halt);
    let r = after_render(Err(SubmitError::AlreadySwapped), 1_000, 2_000, 60_000);
    assert_eq!(r.action, ScheduleAction::Idle);
    let r = after_render(Ok(false), 1_000, 99_000_000, 60_000);
    assert_eq!(r.action, ScheduleAction::Timer { delay_ns: 0, target_ns: 16_667_666 });
}

#[test]
fn other_transient_failure_stops_quietly() {
    let d = on_frame_event(Some(7), 9, Some(1), Some(SubmitError::Temporary), 60_000, true);
    assert_eq!(d.action, ScheduleAction::Idle);
    assert!(d.presentation.is_none());
    let r = after_render(Err(SubmitError::Temporary), 1_000, 2_000, 60_000);
    assert_eq!(r.action, ScheduleAction::Idle);
    let r = after_render(Err(SubmitError::PermissionDenied), 1_000, 2_000, 60_000);
    assert!(matches!(r.action, ScheduleAction::Timer { .. }));
}

#[test]
fn clock_at_its_limit_saturates() {
    let d = on_frame_event(Some(u64::MAX - 5), 0, None, None, 60_000, true);
    assert_eq!(d.action, ScheduleAction::Timer { delay_ns: 9_999_999, target_ns: u64::MAX });
    let r = after_render(Ok(false), u64::MAX, 0, 1);
    assert_eq!(r.action, ScheduleAction::Timer { delay_ns: u64::MAX, target_ns: u64::MAX });
    assert_eq!(frame_duration_ns(1), 1_000_000_000_000);
    assert_eq!(frame_duration_ns(u32::MAX), 232);
}
