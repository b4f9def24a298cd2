use vstd::prelude::*;

verus! {

/// Nanoseconds in a second, times a thousand: refresh rates are in millihertz.
pub const NS_PER_S_MHZ: u64 = 1_000_000_000_000;

/// Why a frame could not be submitted or acknowledged.
#[derive(Clone, Copy, Debug, PartialEq, Eq, Structural)]
pub enum SubmitError {
    /// The buffer was already swapped: nothing new to do.
    AlreadySwapped,
    /// The device is inactive, as while the session is switched away.
    DeviceInactive,
    /// Access to the device was refused, as after a session switch.
    PermissionDenied,
    /// Another transient failure.
    Temporary,
    /// The configuration test failed: the device state has to be reset.
    TestFailed,
    /// The rendering context is lost for a cause not known to pass.
    ContextLost,
}

/// What to do next for one output.
#[derive(Clone, Copy, Debug, PartialEq, Eq, Structural)]
pub enum ScheduleAction {
    /// Nothing to arm: the next vblank drives the output.
    AwaitVblank,
    /// Arm a one-shot timer: after `delay_ns`, render for `target_ns`.
    Timer { delay_ns: u64, target_ns: u64 },
    /// Stop until the session is resumed.
    Suspend,
    /// Nothing more is scheduled on this output.
    Idle,
    /// An unrecoverable fault: the device's scheduling stops.
    Halt,
}

/// Presentation flags: always vsync; with a hardware clock also
/// hardware-clock and hardware-completion.
#[derive(Clone, Copy, Debug, PartialEq, Eq, Structural)]
pub struct PresentFlags {
    pub vsync: bool,
    pub hw_clock: bool,
    pub hw_completion: bool,
}

/// When and how a frame was shown, for presentation feedback.
#[derive(Clone, Copy, Debug, PartialEq, Eq, Structural)]
pub struct Presentation {
    pub time_ns: u64,
    pub sequence: u64,
    pub flags: PresentFlags,
}

/// The decision after a vblank.
#[derive(Clone, Copy, Debug, PartialEq, Eq, Structural)]
pub struct FrameDecision {
    /// Set when the submitted frame was acknowledged.
    pub presentation: Option<Presentation>,
    pub action: ScheduleAction,
}

/// The decision after a render attempt.
#[derive(Clone, Copy, Debug, PartialEq, Eq, Structural)]
pub struct RenderDecision {
    /// The frame showed damage: queue its presentation feedback.
    pub queue_feedback: bool,
    /// Reset the device's output state before trying again.
    pub reset_device: bool,
    pub action: ScheduleAction,
}

pub open spec fn sat_add(a: u64, b: u64) -> u64 {
    if a + b > u64::MAX { u64::MAX } else { (a + b) as u64 }
}

pub open spec fn sat_sub(a: u64, b: u64) -> u64 {
    if a < b { 0 } else { (a - b) as u64 }
}

/// One refresh interval in nanoseconds.
pub open spec fn frame_duration_spec(refresh_mhz: u32) -> u64 {
    (NS_PER_S_MHZ / refresh_mhz as u64) as u64
}

/// The wait after a vblank before repainting: 60% of a refresh interval,
/// which leaves clients time to submit for the very next vblank; none when
/// another GPU renders the output, as the copy takes up that margin.
pub open spec fn repaint_delay_spec(refresh_mhz: u32, same_gpu: bool) -> u64 {
    if same_gpu {
        (frame_duration_spec(refresh_mhz) * 3 / 5) as u64
    } else {
        0
    }
}

/// With another GPU rendering there is never a repaint delay; with the
/// primary GPU it is 60% of a refresh interval, rounded down, and shorter than it.
pub proof fn lemma_repaint_delay(refresh_mhz: u32)
    requires
        refresh_mhz > 0,
    ensures
        repaint_delay_spec(refresh_mhz, false) == 0,
        repaint_delay_spec(refresh_mhz, true) == frame_duration_spec(refresh_mhz) * 3 / 5,
        repaint_delay_spec(refresh_mhz, true) <= frame_duration_spec(refresh_mhz),
{
    let d = frame_duration_spec(refresh_mhz);
    assert(d <= NS_PER_S_MHZ) by (nonlinear_arith)
        requires d == NS_PER_S_MHZ / (refresh_mhz as u64), refresh_mhz > 0;
}

pub fn frame_duration_ns(refresh_mhz: u32) -> (r: u64)
    requires
        refresh_mhz > 0,
    ensures
        r == frame_duration_spec(refresh_mhz),
{
    NS_PER_S_MHZ / (refresh_mhz as u64)
}

pub fn repaint_delay_ns(refresh_mhz: u32, same_gpu: bool) -> (r: u64)
    requires
        refresh_mhz > 0,
    ensures
        r == repaint_delay_spec(refresh_mhz, same_gpu),
{
    if same_gpu {
        let d = frame_duration_ns(refresh_mhz);
        assert(d <= NS_PER_S_MHZ) by (nonlinear_arith)
            requires d == NS_PER_S_MHZ / (refresh_mhz as u64), refresh_mhz > 0;
        d * 3 / 5
    } else {
        0
    }
}

/// What follows a vblank whose frame was not acknowledged.
pub open spec fn frame_event_action_kind(err: Option<SubmitError>) -> ScheduleAction {
    match err {
        None => ScheduleAction::Idle,
        Some(SubmitError::AlreadySwapped) => ScheduleAction::Idle,
        Some(SubmitError::DeviceInactive) => ScheduleAction::Suspend,
        Some(SubmitError::PermissionDenied) => ScheduleAction::Suspend,
        Some(SubmitError::Temporary) => ScheduleAction::Idle,
        Some(SubmitError::TestFailed) => ScheduleAction::Halt,
        Some(SubmitError::ContextLost) => ScheduleAction::Halt,
    }
}

pub open spec fn continues(err: Option<SubmitError>) -> bool {
    err is None || err == Some(SubmitError::AlreadySwapped)
}

pub open spec fn on_frame_event_spec(
    hw_time_ns: Option<u64>,
    now_ns: u64,
    sequence: Option<u64>,
    err: Option<SubmitError>,
    refresh_mhz: u32,
    same_gpu: bool,
) -> FrameDecision {
    let clock = match hw_time_ns { Some(t) => t, None => now_ns };
    let flags = PresentFlags { vsync: true, hw_clock: hw_time_ns is Some, hw_completion: hw_time_ns is Some };
    let seq = match sequence { Some(s) => s, None => 0 };
    FrameDecision {
        presentation: if err is None { Some(Presentation { time_ns: clock, sequence: seq, flags }) } else { None },
        action: if continues(err) {
            ScheduleAction::Timer {
                delay_ns: repaint_delay_spec(refresh_mhz, same_gpu),
                target_ns: sat_add(clock, frame_duration_spec(refresh_mhz)),
            }
        } else {
            frame_event_action_kind(err)
        },
    }
}

/// Decides what follows a vblank on an output. The event's clock is the
/// hardware timestamp, or else the software clock `now_ns` with only the
/// vsync flag; `err` is what acknowledging the submitted frame reported.
/// An acknowledged frame arms a repaint timer for one refresh interval after
/// the event; an inactive device or refused access suspends the output
/// until the session resumes; a lost context halts it.
pub fn on_frame_event(
    hw_time_ns: Option<u64>,
    now_ns: u64,
    sequence: Option<u64>,
    err: Option<SubmitError>,
    refresh_mhz: u32,
    same_gpu: bool,
) -> (r: FrameDecision)
    requires
        refresh_mhz > 0,
    ensures
        r == on_frame_event_spec(hw_time_ns, now_ns, sequence, err, refresh_mhz, same_gpu),
{
    let (clock, hw) = match hw_time_ns {
        Some(t) => (t, true),
        None => (now_ns, false),
    };
    let flags = PresentFlags { vsync: true, hw_clock: hw, hw_completion: hw };
    let seq = match sequence {
        Some(s) => s,
        None => 0,
    };
    let presentation = if err.is_none() {
        Some(Presentation { time_ns: clock, sequence: seq, flags })
    } else {
        None
    };
    let action = match err {
        None | Some(SubmitError::AlreadySwapped) => ScheduleAction::Timer {
            delay_ns: repaint_delay_ns(refresh_mhz, same_gpu),
            target_ns: clock.saturating_add(frame_duration_ns(refresh_mhz)),
        },
        Some(SubmitError::DeviceInactive) | Some(SubmitError::PermissionDenied) => ScheduleAction::Suspend,
        Some(SubmitError::Temporary) => ScheduleAction::Idle,
        Some(SubmitError::TestFailed) | Some(SubmitError::ContextLost) => ScheduleAction::Halt,
    };
    FrameDecision { presentation, action }
}

/// The timer that retries a frame one refresh interval after `target_ns`.
pub open spec fn retry_timer(target_ns: u64, now_ns: u64, refresh_mhz: u32) -> ScheduleAction {
    let next = sat_add(target_ns, frame_duration_spec(refresh_mhz));
    ScheduleAction::Timer { delay_ns: sat_sub(next, now_ns), target_ns: next }
}

pub open spec fn after_render_spec(
    rendered: Result<bool, SubmitError>,
    target_ns: u64,
    now_ns: u64,
    refresh_mhz: u32,
) -> RenderDecision {
    match rendered {
        Ok(true) => RenderDecision { queue_feedback: true, reset_device: false, action: ScheduleAction::AwaitVblank },
        Ok(false) => RenderDecision {
            queue_feedback: false,
            reset_device: false,
            action: retry_timer(target_ns, now_ns, refresh_mhz),
        },
        Err(SubmitError::DeviceInactive) | Err(SubmitError::PermissionDenied) => RenderDecision {
            queue_feedback: false,
            reset_device: false,
            action: retry_timer(target_ns, now_ns, refresh_mhz),
        },
        Err(SubmitError::TestFailed) => RenderDecision {
            queue_feedback: false,
            reset_device: true,
            action: retry_timer(target_ns, now_ns, refresh_mhz),
        },
        Err(SubmitError::ContextLost) => RenderDecision {
            queue_feedback: false,
            reset_device: false,
            action: ScheduleAction::Halt,
        },
        Err(_) => RenderDecision { queue_feedback: false, reset_device: false, action: ScheduleAction::Idle },
    }
}

/// Decides what follows a render attempt for frame target `target_ns`:
/// `Ok(true)` means a damaged frame was submitted, `Ok(false)` that there
/// was nothing to show. A damaged frame waits for its vblank; no damage or
/// a recoverable failure retries one refresh interval later; a failed
/// configuration test also resets the device; a lost context halts.
pub fn after_render(
    rendered: Result<bool, SubmitError>,
    target_ns: u64,
    now_ns: u64,
    refresh_mhz: u32,
) -> (r: RenderDecision)
    requires
        refresh_mhz > 0,
    ensures
        r == after_render_spec(rendered, target_ns, now_ns, refresh_mhz),
{
    let next = target_ns.saturating_add(frame_duration_ns(refresh_mhz));
    let retry = ScheduleAction::Timer { delay_ns: next.saturating_sub(now_ns), target_ns: next };
    match rendered {
        Ok(true) => RenderDecision { queue_feedback: true, reset_device: false, action: ScheduleAction::AwaitVblank },
        Ok(false) | Err(SubmitError::DeviceInactive) | Err(SubmitError::PermissionDenied) => RenderDecision {
            queue_feedback: false,
            reset_device: false,
            action: retry,
        },
        Err(SubmitError::TestFailed) => RenderDecision { queue_feedback: false, reset_device: true, action: retry },
        Err(SubmitError::ContextLost) => RenderDecision {
            queue_feedback: false,
            reset_device: false,
            action: ScheduleAction::Halt,
        },
        Err(_) => RenderDecision { queue_feedback: false, reset_device: false, action: ScheduleAction::Idle },
    }
}

} // verus!
