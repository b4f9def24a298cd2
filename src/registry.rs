use vstd::prelude::*;
use crate::connector::{ConnectorInfo, ConnectorView, Mode};
use crate::crtc_mapper::{map_post, reports_engine, simple_map};
use crate::drm_scanner::{event_view, item_views, tagged, DrmScanEvent, DrmScanner, ScanEventView};
use crate::lease::{first_claimed, lease_planes, EnginePlanes, LeaseError, LeaseGrant};
use crate::scanner::{lemma_scan_twice, scan_outcome, snapshot_after, unique_handles, views};
use crate::schedule::{
    after_render, after_render_spec, on_frame_event, on_frame_event_spec, FrameDecision, RenderDecision,
    ScheduleAction, SubmitError,
};

verus! {

/// A composited output: a port driven by an engine at a mode, placed at a
/// horizontal offset in the layout, and rendered by a GPU.
#[derive(Clone, Copy, Debug, PartialEq, Eq, Structural)]
pub struct OutputSurface {
    pub crtc: u32,
    pub connector: u32,
    pub mode: Mode,
    pub x: u64,
    pub render_node: u64,
    pub disable_direct_scanout: bool,
}

/// How an output's frames reach its display.
#[derive(Clone, Copy, Debug, PartialEq, Eq, Structural)]
pub enum RendererKind {
    /// The GPU that renders is the primary one.
    SingleGpu,
    /// Another GPU renders; frames are copied across, in this format.
    CrossGpu { format: u32 },
}

/// What the registry asks its surroundings to carry out.
#[derive(Clone, Copy, Debug, PartialEq, Eq, Structural)]
pub enum OutputEvent {
    /// Set up this output and render it at once.
    OutputCreated { node: u64, surface: OutputSurface },
    /// Tear down the output of this engine.
    OutputRemoved { node: u64, crtc: u32, connector: u32 },
    /// Offer this port, driven by this engine, for leasing.
    LeaseOffered { node: u64, connector: u32, crtc: u32 },
    /// Withdraw this port from leasing.
    LeaseWithdrawn { node: u64, connector: u32 },
}

/// Why a device could not be added.
#[derive(Clone, Copy, Debug, PartialEq, Eq, Structural)]
pub enum HotplugError {
    /// A device of that node is already known.
    AlreadyAdded,
    /// No device of that node is known.
    Untracked,
}

/// The mode flagged preferred, else the first one.
pub open spec fn preferred_mode(modes: Seq<Mode>) -> Option<Mode> {
    if exists|i: int| 0 <= i < modes.len() && (#[trigger] modes[i]).preferred {
        let i = choose|i: int| 0 <= i < modes.len() && (#[trigger] modes[i]).preferred
            && forall|j: int| 0 <= j < i ==> !(#[trigger] modes[j]).preferred;
        Some(modes[i])
    } else if modes.len() > 0 {
        Some(modes[0])
    } else {
        None
    }
}

/// Picks the mode flagged preferred, or else the first advertised one.
pub fn select_mode(modes: &Vec<Mode>) -> (r: Option<Mode>)
    ensures
        r == preferred_mode(modes@),
{
    let mut i: usize = 0;
    while i < modes.len()
        invariant
            i <= modes@.len(),
            forall|j: int| 0 <= j < i ==> !(#[trigger] modes@[j]).preferred,
        decreases modes.len() - i,
    {
        if modes[i].preferred {
            proof {
                let k = choose|k: int| 0 <= k < modes@.len() && (#[trigger] modes@[k]).preferred
                    && forall|j: int| 0 <= j < k ==> !(#[trigger] modes@[j]).preferred;
                assert(0 <= i < modes@.len() && modes@[i as int].preferred
                    && forall|j: int| 0 <= j < i ==> !(#[trigger] modes@[j]).preferred);
                if k < i {
                } else if k > i {
                    assert(!modes@[i as int].preferred);
                }
            }
            return Some(modes[i]);
        }
        i += 1;
    }
    if modes.len() > 0 {
        Some(modes[0])
    } else {
        None
    }
}

pub open spec fn ports_of(d: Device) -> PortState {
    PortState { outputs: d.outputs(), leasable: d.leasable() }
}

/// One GPU with display control: its port scanner, outputs and leasing state.
pub struct Device {
    node: u64,
    render_node: u64,
    scanner: DrmScanner,
    surfaces: Vec<OutputSurface>,
    non_desktop: Vec<(u32, u32)>,
    leasing: bool,
    active_leases: Vec<u32>,
    suspended: bool,
    halted: bool,
}

/// The ports a device shows outputs on, and those it offers for leasing.
pub struct PortState {
    pub outputs: Seq<OutputSurface>,
    pub leasable: Seq<(u32, u32)>,
}

pub open spec fn ports_in_use(p: PortState, c: u32, k: u32) -> bool {
    has_output_port(p.outputs, c) || has_output_crtc(p.outputs, k) || leasable_port(p.leasable, c)
        || leasable_crtc(p.leasable, k)
}

/// Setting up port `conn`, connected and driven by engine `k`, with a new
/// output placed at `x`.
pub open spec fn connect_spec(
    p: PortState,
    node: u64,
    render_node: u64,
    disable_direct_scanout: bool,
    conn: ConnectorView,
    k: u32,
    x: u64,
) -> (PortState, Option<OutputEvent>) {
    if ports_in_use(p, conn.handle, k) {
        (p, None)
    } else if conn.non_desktop {
        (
            PortState { outputs: p.outputs, leasable: p.leasable.push((conn.handle, k)) },
            Some(OutputEvent::LeaseOffered { node, connector: conn.handle, crtc: k }),
        )
    } else {
        match preferred_mode(conn.modes) {
            None => (p, None),
            Some(m) => {
                let s = OutputSurface { crtc: k, connector: conn.handle, mode: m, x, render_node, disable_direct_scanout };
                (
                    PortState { outputs: p.outputs.push(s), leasable: p.leasable },
                    Some(OutputEvent::OutputCreated { node, surface: s }),
                )
            },
        }
    }
}

pub open spec fn lease_index(s: Seq<(u32, u32)>, c: u32) -> int {
    choose|i: int| 0 <= i < s.len() && (#[trigger] s[i]).0 == c
}

pub open spec fn crtc_index(s: Seq<OutputSurface>, k: u32) -> int {
    choose|i: int| 0 <= i < s.len() && (#[trigger] s[i]).crtc == k
}

/// Tearing down port `c`, driven by engine `k`.
pub open spec fn disconnect_spec(p: PortState, node: u64, c: u32, k: u32) -> (PortState, Option<OutputEvent>) {
    if leasable_port(p.leasable, c) {
        (
            PortState { outputs: p.outputs, leasable: p.leasable.remove(lease_index(p.leasable, c)) },
            Some(OutputEvent::LeaseWithdrawn { node, connector: c }),
        )
    } else if has_output_crtc(p.outputs, k) {
        let i = crtc_index(p.outputs, k);
        (
            PortState { outputs: p.outputs.remove(i), leasable: p.leasable },
            Some(OutputEvent::OutputRemoved { node, crtc: k, connector: p.outputs[i].connector }),
        )
    } else {
        (p, None)
    }
}

pub open spec fn unique_crtcs(s: Seq<OutputSurface>) -> bool {
    forall|i: int, j: int| 0 <= i < j < s.len() ==> s[i].crtc != s[j].crtc && s[i].connector != s[j].connector
}

pub open spec fn unique_ports(s: Seq<(u32, u32)>) -> bool {
    forall|i: int, j: int| 0 <= i < j < s.len() ==> s[i].0 != s[j].0 && s[i].1 != s[j].1
}

pub open spec fn has_output_port(s: Seq<OutputSurface>, c: u32) -> bool {
    exists|i: int| 0 <= i < s.len() && (#[trigger] s[i]).connector == c
}

pub open spec fn has_output_crtc(s: Seq<OutputSurface>, k: u32) -> bool {
    exists|i: int| 0 <= i < s.len() && (#[trigger] s[i]).crtc == k
}

pub open spec fn leasable_port(s: Seq<(u32, u32)>, c: u32) -> bool {
    exists|i: int| 0 <= i < s.len() && (#[trigger] s[i]).0 == c
}

pub open spec fn leasable_crtc(s: Seq<(u32, u32)>, k: u32) -> bool {
    exists|i: int| 0 <= i < s.len() && (#[trigger] s[i]).1 == k
}

impl Device {
    pub closed spec fn node_id(&self) -> u64 {
        self.node
    }

    pub closed spec fn render_node_id(&self) -> u64 {
        self.render_node
    }

    /// The device's outputs, in the order they were set up.
    pub closed spec fn outputs(&self) -> Seq<OutputSurface> {
        self.surfaces@
    }

    /// The ports offered for leasing, each with its engine.
    pub closed spec fn leasable(&self) -> Seq<(u32, u32)> {
        self.non_desktop@
    }

    /// The ids of the leases granted and not yet ended.
    pub closed spec fn leases(&self) -> Seq<u32> {
        self.active_leases@
    }

    pub closed spec fn leasing_enabled(&self) -> bool {
        self.leasing
    }

    /// Scheduling waits for the session to resume.
    pub closed spec fn is_suspended(&self) -> bool {
        self.suspended
    }

    /// Scheduling stopped for good after an unrecoverable fault.
    pub closed spec fn is_halted(&self) -> bool {
        self.halted
    }

    /// The device with its scheduling flags set to `suspended` and `halted`.
    pub closed spec fn with_flags(self, suspended: bool, halted: bool) -> Device {
        Device { suspended, halted, ..self }
    }

    /// Setting the scheduling flags sets them and changes nothing else.
    pub proof fn lemma_with_flags(self, suspended: bool, halted: bool)
        ensures
            self.with_flags(suspended, halted).is_suspended() == suspended,
            self.with_flags(suspended, halted).is_halted() == halted,
            self.with_flags(suspended, halted).node_id() == self.node_id(),
            self.with_flags(suspended, halted).render_node_id() == self.render_node_id(),
            self.with_flags(suspended, halted).outputs() == self.outputs(),
            self.with_flags(suspended, halted).leasable() == self.leasable(),
            self.with_flags(suspended, halted).leases() == self.leases(),
            self.with_flags(suspended, halted).leasing_enabled() == self.leasing_enabled(),
            self.with_flags(suspended, halted).scanner() == self.scanner(),
            self.with_flags(suspended, halted).wf() == self.wf(),
    {
    }

    pub closed spec fn scanner(&self) -> DrmScanner {
        self.scanner
    }

    /// No two outputs share an engine or a port, no two leasable ports share
    /// one either, and no port is both an output and leasable.
    pub open spec fn wf(&self) -> bool {
        &&& self.scanner().wf()
        &&& unique_crtcs(self.outputs())
        &&& unique_ports(self.leasable())
        &&& forall|c: u32| has_output_port(self.outputs(), c) ==> !leasable_port(self.leasable(), c)
        &&& forall|k: u32| has_output_crtc(self.outputs(), k) ==> !leasable_crtc(self.leasable(), k)
    }
}


impl Device {
    /// A device with no port seen yet; `leasing` tells whether leasing could
    /// be set up for it.
    pub fn new(node: u64, render_node: u64, leasing: bool) -> (r: Self)
        ensures
            r.wf(),
            r.node_id() == node,
            r.render_node_id() == render_node,
            r.leasing_enabled() == leasing,
            r.outputs() == Seq::<OutputSurface>::empty(),
            r.leasable() == Seq::<(u32, u32)>::empty(),
            r.leases() == Seq::<u32>::empty(),
            !r.is_suspended(),
            !r.is_halted(),
            r.scanner().snapshot().len() == 0,
            r.scanner().assignment().len() == 0,
    {
        Device {
            node,
            render_node,
            scanner: DrmScanner::new(),
            surfaces: Vec::new(),
            non_desktop: Vec::new(),
            leasing,
            active_leases: Vec::new(),
            suspended: false,
            halted: false,
        }
    }

    fn output_index_by_crtc(&self, k: u32) -> (r: Option<usize>)
        ensures
            r is None ==> !has_output_crtc(self.outputs(), k),
            r matches Some(i) ==> i < self.outputs().len() && self.outputs()[i as int].crtc == k,
    {
        let mut i: usize = 0;
        while i < self.surfaces.len()
            invariant
                i <= self.surfaces@.len(),
                forall|j: int| 0 <= j < i ==> (#[trigger] self.surfaces@[j]).crtc != k,
            decreases self.surfaces.len() - i,
        {
            if self.surfaces[i].crtc == k {
                return Some(i);
            }
            i += 1;
        }
        None
    }

    fn output_index_by_port(&self, c: u32) -> (r: Option<usize>)
        ensures
            r is None ==> !has_output_port(self.outputs(), c),
            r matches Some(i) ==> i < self.outputs().len() && self.outputs()[i as int].connector == c,
    {
        let mut i: usize = 0;
        while i < self.surfaces.len()
            invariant
                i <= self.surfaces@.len(),
                forall|j: int| 0 <= j < i ==> (#[trigger] self.surfaces@[j]).connector != c,
            decreases self.surfaces.len() - i,
        {
            if self.surfaces[i].connector == c {
                return Some(i);
            }
            i += 1;
        }
        None
    }

    fn leasable_index(&self, c: u32) -> (r: Option<usize>)
        ensures
            r is None ==> !leasable_port(self.leasable(), c),
            r matches Some(i) ==> i < self.leasable().len() && self.leasable()[i as int].0 == c,
    {
        let mut i: usize = 0;
        while i < self.non_desktop.len()
            invariant
                i <= self.non_desktop@.len(),
                forall|j: int| 0 <= j < i ==> (#[trigger] self.non_desktop@[j]).0 != c,
            decreases self.non_desktop.len() - i,
        {
            if self.non_desktop[i].0 == c {
                return Some(i);
            }
            i += 1;
        }
        None
    }

    fn leasable_crtc_used(&self, k: u32) -> (r: bool)
        ensures
            r == leasable_crtc(self.leasable(), k),
    {
        let mut i: usize = 0;
        while i < self.non_desktop.len()
            invariant
                i <= self.non_desktop@.len(),
                forall|j: int| 0 <= j < i ==> (#[trigger] self.non_desktop@[j]).1 != k,
            decreases self.non_desktop.len() - i,
        {
            if self.non_desktop[i].1 == k {
                assert(self.non_desktop@[i as int].1 == k);
                return true;
            }
            i += 1;
        }
        false
    }

    /// Sets up port `conn`, now connected and driven by engine `k`: a
    /// non-desktop port is offered for leasing; another gets an output at its
    /// preferred mode (else its first), placed at `x`. A port or engine
    /// already in use, or a port with no mode, is left as it is.
    pub fn connector_connected(&mut self, conn: &ConnectorInfo, k: u32, x: u64, disable_direct_scanout: bool)
        -> (r: Option<OutputEvent>)
        requires
            old(self).wf(),
        ensures
            final(self).is_suspended() == old(self).is_suspended(),
            final(self).is_halted() == old(self).is_halted(),
            final(self).wf(),
            final(self).node_id() == old(self).node_id(),
            final(self).render_node_id() == old(self).render_node_id(),
            final(self).leasing_enabled() == old(self).leasing_enabled(),
            final(self).leases() == old(self).leases(),
            final(self).scanner() == old(self).scanner(),
            (ports_of(*final(self)), r) == connect_spec(ports_of(*old(self)), old(self).node_id(),
                old(self).render_node_id(), disable_direct_scanout, conn@, k, x),
    {
        let c = conn.handle;
        if self.output_index_by_port(c).is_some() || self.output_index_by_crtc(k).is_some()
            || self.leasable_index(c).is_some() || self.leasable_crtc_used(k) {
            return None;
        }
        if conn.non_desktop {
            let ghost l0 = self.non_desktop@;
            self.non_desktop.push((c, k));
            proof {
                assert forall|i: int, j: int| 0 <= i < j < self.non_desktop@.len() implies
                    self.non_desktop@[i].0 != self.non_desktop@[j].0 && self.non_desktop@[i].1 != self.non_desktop@[j].1 by {
                    if j == l0.len() {
                        assert(self.non_desktop@[i] == l0[i]);
                    }
                }
                assert forall|c2: u32| has_output_port(self.outputs(), c2) implies !leasable_port(self.leasable(), c2) by {
                    if leasable_port(self.leasable(), c2) {
                        let i = choose|i: int| 0 <= i < self.non_desktop@.len() && (#[trigger] self.non_desktop@[i]).0 == c2;
                        if i < l0.len() {
                            assert(l0[i].0 == c2);
                        }
                    }
                }
                assert forall|k2: u32| has_output_crtc(self.outputs(), k2) implies !leasable_crtc(self.leasable(), k2) by {
                    if leasable_crtc(self.leasable(), k2) {
                        let i = choose|i: int| 0 <= i < self.non_desktop@.len() && (#[trigger] self.non_desktop@[i]).1 == k2;
                        if i < l0.len() {
                            assert(l0[i].1 == k2);
                        }
                    }
                }
            }
            return Some(OutputEvent::LeaseOffered { node: self.node, connector: c, crtc: k });
        }
        match select_mode(&conn.modes) {
            None => None,
            Some(m) => {
                let s = OutputSurface {
                    crtc: k,
                    connector: c,
                    mode: m,
                    x,
                    render_node: self.render_node,
                    disable_direct_scanout,
                };
                let ghost o0 = self.surfaces@;
                self.surfaces.push(s);
                proof {
                    assert forall|i: int, j: int| 0 <= i < j < self.surfaces@.len() implies
                        self.surfaces@[i].crtc != self.surfaces@[j].crtc && self.surfaces@[i].connector != self.surfaces@[j].connector by {
                        if j == o0.len() {
                            assert(self.surfaces@[i] == o0[i]);
                        }
                    }
                    assert forall|c2: u32| has_output_port(self.outputs(), c2) implies !leasable_port(self.leasable(), c2) by {
                        let i = choose|i: int| 0 <= i < self.surfaces@.len() && (#[trigger] self.surfaces@[i]).connector == c2;
                        if i < o0.len() {
                            assert(o0[i].connector == c2);
                        }
                    }
                    assert forall|k2: u32| has_output_crtc(self.outputs(), k2) implies !leasable_crtc(self.leasable(), k2) by {
                        let i = choose|i: int| 0 <= i < self.surfaces@.len() && (#[trigger] self.surfaces@[i]).crtc == k2;
                        if i < o0.len() {
                            assert(o0[i].crtc == k2);
                        }
                    }
                }
                Some(OutputEvent::OutputCreated { node: self.node, surface: s })
            },
        }
    }
}

impl Device {
    /// Handles port `c`, driven by engine `k`, going away: a leasable port is
    /// withdrawn from leasing; otherwise the output of engine `k`, if any, is
    /// removed.
    pub fn connector_disconnected(&mut self, c: u32, k: u32) -> (r: Option<OutputEvent>)
        requires
            old(self).wf(),
        ensures
            final(self).is_suspended() == old(self).is_suspended(),
            final(self).is_halted() == old(self).is_halted(),
            final(self).wf(),
            final(self).node_id() == old(self).node_id(),
            final(self).render_node_id() == old(self).render_node_id(),
            final(self).leasing_enabled() == old(self).leasing_enabled(),
            final(self).leases() == old(self).leases(),
            final(self).scanner() == old(self).scanner(),
            (ports_of(*final(self)), r) == disconnect_spec(ports_of(*old(self)), old(self).node_id(), c, k),
    {
        if let Some(i) = self.leasable_index(c) {
            let ghost l0 = self.non_desktop@;
            self.non_desktop.remove(i);
            proof {
                assert forall|a: int, b: int| 0 <= a < b < self.non_desktop@.len() implies
                    self.non_desktop@[a].0 != self.non_desktop@[b].0 && self.non_desktop@[a].1 != self.non_desktop@[b].1 by {
                    if a < i { if b < i {} else { assert(self.non_desktop@[b] == l0[b + 1]); } }
                    else { assert(self.non_desktop@[a] == l0[a + 1]); assert(self.non_desktop@[b] == l0[b + 1]); }
                }
                assert forall|c2: u32| has_output_port(self.outputs(), c2) implies !leasable_port(self.leasable(), c2) by {
                    if leasable_port(self.leasable(), c2) {
                        let j = choose|j: int| 0 <= j < self.non_desktop@.len() && (#[trigger] self.non_desktop@[j]).0 == c2;
                        if j < i { assert(l0[j].0 == c2); } else { assert(l0[j + 1].0 == c2); }
                    }
                }
                assert forall|k2: u32| has_output_crtc(self.outputs(), k2) implies !leasable_crtc(self.leasable(), k2) by {
                    if leasable_crtc(self.leasable(), k2) {
                        let j = choose|j: int| 0 <= j < self.non_desktop@.len() && (#[trigger] self.non_desktop@[j]).1 == k2;
                        if j < i { assert(l0[j].1 == k2); } else { assert(l0[j + 1].1 == k2); }
                    }
                }
            }
            proof {
                let j = lease_index(l0, c);
                assert(l0[i as int].0 == c);
                if j != i as int {
                    if j < i { assert(l0[j].0 != l0[i as int].0); } else { assert(l0[i as int].0 != l0[j].0); }
                }
                assert(self.non_desktop@ == l0.remove(lease_index(l0, c)));
            }
            return Some(OutputEvent::LeaseWithdrawn { node: self.node, connector: c });
        }
        match self.output_index_by_crtc(k) {
            None => None,
            Some(i) => {
                let ghost o0 = self.surfaces@;
                let s = self.surfaces.remove(i);
                proof {
                    assert forall|a: int, b: int| 0 <= a < b < self.surfaces@.len() implies
                        self.surfaces@[a].crtc != self.surfaces@[b].crtc && self.surfaces@[a].connector != self.surfaces@[b].connector by {
                        if a < i { if b < i {} else { assert(self.surfaces@[b] == o0[b + 1]); } }
                        else { assert(self.surfaces@[a] == o0[a + 1]); assert(self.surfaces@[b] == o0[b + 1]); }
                    }
                    assert forall|c2: u32| has_output_port(self.outputs(), c2) implies !leasable_port(self.leasable(), c2) by {
                        let j = choose|j: int| 0 <= j < self.surfaces@.len() && (#[trigger] self.surfaces@[j]).connector == c2;
                        if j < i { assert(o0[j].connector == c2); } else { assert(o0[j + 1].connector == c2); }
                    }
                    assert forall|k2: u32| has_output_crtc(self.outputs(), k2) implies !leasable_crtc(self.leasable(), k2) by {
                        let j = choose|j: int| 0 <= j < self.surfaces@.len() && (#[trigger] self.surfaces@[j]).crtc == k2;
                        if j < i { assert(o0[j].crtc == k2); } else { assert(o0[j + 1].crtc == k2); }
                    }
                }
                proof {
                    let j = crtc_index(o0, k);
                    assert(o0[i as int].crtc == k);
                    if j != i as int {
                        if j < i { assert(o0[j].crtc != o0[i as int].crtc); } else { assert(o0[i as int].crtc != o0[j].crtc); }
                    }
                    assert(self.surfaces@ == o0.remove(crtc_index(o0, k)));
                }
                Some(OutputEvent::OutputRemoved { node: self.node, crtc: k, connector: s.connector })
            },
        }
    }

    /// Checks a lease request for ports `req`: granted only if every port is
    /// offered for leasing, each with its engine, in request order.
    pub fn lease_request(&self, req: &Vec<u32>) -> (r: Result<Vec<(u32, u32)>, LeaseError>)
        requires
            self.wf(),
        ensures
            r is Ok <==> lease_grantable(*self, req@),
            r is Err ==> r == Err::<Vec<(u32, u32)>, LeaseError>(LeaseError::DesktopConnector),
            r matches Ok(v) ==> v@.len() == req@.len() && forall|i: int| 0 <= i < v@.len() ==>
                (#[trigger] v@[i]).0 == req@[i] && self.leasable().contains(v@[i])
                && v@[i] == (req@[i], lease_engine(*self, req@[i])),
    {
        let mut v: Vec<(u32, u32)> = Vec::new();
        let mut i: usize = 0;
        while i < req.len()
            invariant
                i <= req@.len(),
                v@.len() == i,
                forall|j: int| 0 <= j < i ==> leasable_port(self.leasable(), #[trigger] req@[j]),
                forall|j: int| 0 <= j < v@.len() ==> (#[trigger] v@[j]).0 == req@[j] && self.leasable().contains(v@[j])
                    && v@[j] == (req@[j], lease_engine(*self, req@[j])),
                self.wf(),
            decreases req.len() - i,
        {
            match self.leasable_index(req[i]) {
                None => {
                    return Err(LeaseError::DesktopConnector);
                },
                Some(x) => {
                    let e = self.non_desktop[x];
                    assert(self.leasable()[x as int] == e);
                    proof {
                        let l = self.leasable();
                        let y = lease_index(l, req@[i as int]);
                        assert(l[x as int].0 == req@[i as int]);
                        if y != x as int {
                            if y < x { assert(l[y].0 != l[x as int].0); } else { assert(l[x as int].0 != l[y].0); }
                        }
                    }
                    v.push(e);
                    assert(leasable_port(self.leasable(), req@[i as int]));
                },
            }
            i += 1;
        }
        Ok(v)
    }

    /// Records a granted lease.
    pub fn new_active_lease(&mut self, id: u32)
        requires
            old(self).wf(),
        ensures
            final(self).is_suspended() == old(self).is_suspended(),
            final(self).is_halted() == old(self).is_halted(),
            final(self).wf(),
            final(self).leases() == old(self).leases().push(id),
            final(self).render_node_id() == old(self).render_node_id(),
            final(self).leasing_enabled() == old(self).leasing_enabled(),
            final(self).outputs() == old(self).outputs(),
            final(self).leasable() == old(self).leasable(),
            final(self).node_id() == old(self).node_id(),
            final(self).scanner() == old(self).scanner(),
    {
        self.active_leases.push(id);
    }

    /// Forgets the ended lease `id`.
    pub fn lease_destroyed(&mut self, id: u32)
        requires
            old(self).wf(),
        ensures
            final(self).is_suspended() == old(self).is_suspended(),
            final(self).is_halted() == old(self).is_halted(),
            final(self).wf(),
            final(self).leases() == old(self).leases().filter(|l: u32| l != id),
            final(self).render_node_id() == old(self).render_node_id(),
            final(self).leasing_enabled() == old(self).leasing_enabled(),
            final(self).outputs() == old(self).outputs(),
            final(self).leasable() == old(self).leasable(),
            final(self).node_id() == old(self).node_id(),
            final(self).scanner() == old(self).scanner(),
    {
        let mut kept: Vec<u32> = Vec::new();
        let mut i: usize = 0;
        while i < self.active_leases.len()
            invariant
                i <= self.active_leases@.len(),
                kept@ == self.active_leases@.take(i as int).filter(|l: u32| l != id),
            decreases self.active_leases.len() - i,
        {
            let l = self.active_leases[i];
            proof {
                let t = self.active_leases@.take(i as int + 1);
                assert(t.drop_last() =~= self.active_leases@.take(i as int));
                reveal(Seq::filter);
            }
            if l != id {
                kept.push(l);
            }
            i += 1;
        }
        assert(self.active_leases@.take(i as int) =~= self.active_leases@);
        self.active_leases = kept;
    }

    /// The session was switched away: every lease is forgotten, as leases do
    /// not outlive a session switch, and scheduling waits for the session.
    pub fn pause(&mut self)
        requires
            old(self).wf(),
        ensures
            final(self).wf(),
            final(self).leases() == Seq::<u32>::empty(),
            final(self).render_node_id() == old(self).render_node_id(),
            final(self).leasing_enabled() == old(self).leasing_enabled(),
            final(self).is_suspended(),
            final(self).is_halted() == old(self).is_halted(),
            final(self).outputs() == old(self).outputs(),
            final(self).leasable() == old(self).leasable(),
            final(self).node_id() == old(self).node_id(),
            final(self).scanner() == old(self).scanner(),
    {
        self.active_leases = Vec::new();
        self.suspended = true;
    }

    /// The ids of the leases granted and not yet ended.
    pub fn active_leases(&self) -> (r: &Vec<u32>)
        ensures
            r@ == self.leases(),
    {
        &self.active_leases
    }

    /// The device node.
    pub fn node(&self) -> (r: u64)
        ensures
            r == self.node_id(),
    {
        self.node
    }

    /// Sets the scheduling flags.
    pub fn set_flags(&mut self, suspended: bool, halted: bool)
        ensures
            *final(self) == old(self).with_flags(suspended, halted),
            final(self).wf() == old(self).wf(),
            final(self).outputs() == old(self).outputs(),
            final(self).leasable() == old(self).leasable(),
            final(self).node_id() == old(self).node_id(),
            final(self).is_suspended() == suspended,
            final(self).is_halted() == halted,
    {
        self.suspended = suspended;
        self.halted = halted;
    }

    /// Whether the device's outputs may render now.
    pub fn is_scheduling(&self) -> (r: bool)
        ensures
            r == (!self.is_suspended() && !self.is_halted()),
    {
        !self.suspended && !self.halted
    }

    /// The engines whose outputs should render: all of them, or engine `k`
    /// alone if it has an output.
    pub fn render_targets(&self, k: Option<u32>) -> (r: Vec<u32>)
        requires
            self.wf(),
        ensures
            k is None ==> r@ == self.outputs().map_values(|s: OutputSurface| s.crtc),
            k matches Some(c) ==> (has_output_crtc(self.outputs(), c) ==> r@ == seq![c])
                && (!has_output_crtc(self.outputs(), c) ==> r@.len() == 0),
    {
        match k {
            Some(c) => {
                if self.output_index_by_crtc(c).is_some() {
                    vec![c]
                } else {
                    Vec::new()
                }
            },
            None => {
                let mut r: Vec<u32> = Vec::new();
                let mut i: usize = 0;
                while i < self.surfaces.len()
                    invariant
                        i <= self.surfaces@.len(),
                        r@ == self.surfaces@.take(i as int).map_values(|s: OutputSurface| s.crtc),
                    decreases self.surfaces.len() - i,
                {
                    r.push(self.surfaces[i].crtc);
                    assert(r@ =~= self.surfaces@.take(i as int + 1).map_values(|s: OutputSurface| s.crtc));
                    i += 1;
                }
                assert(self.surfaces@.take(i as int) =~= self.surfaces@);
                r
            },
        }
    }

    /// The output of engine `k`.
    pub fn surface(&self, k: u32) -> (r: Option<OutputSurface>)
        requires
            self.wf(),
        ensures
            r is None <==> !has_output_crtc(self.outputs(), k),
            r matches Some(s) ==> s.crtc == k && self.outputs().contains(s)
                && s == self.outputs()[crtc_index(self.outputs(), k)],
    {
        match self.output_index_by_crtc(k) {
            Some(i) => {
                assert(self.outputs()[i as int].crtc == k);
                proof {
                    let o = self.outputs();
                    let j = crtc_index(o, k);
                    if j != i as int {
                        if j < i { assert(o[j].crtc != o[i as int].crtc); } else { assert(o[i as int].crtc != o[j].crtc); }
                    }
                }
                Some(self.surfaces[i])
            },
            None => None,
        }
    }
}

/// `d1` has the node, render node, leasing flag, port scanner, outputs and
/// leasable ports of `d0`.
pub open spec fn keeps_setup(d0: Device, d1: Device) -> bool {
    &&& d1.node_id() == d0.node_id()
    &&& d1.render_node_id() == d0.render_node_id()
    &&& d1.leasing_enabled() == d0.leasing_enabled()
    &&& d1.scanner() == d0.scanner()
    &&& d1.outputs() == d0.outputs()
    &&& d1.leasable() == d0.leasable()
}

/// The engine that drives leasable port `c` of the device.
pub open spec fn lease_engine(d: Device, c: u32) -> u32 {
    d.leasable()[lease_index(d.leasable(), c)].1
}

/// Claims are given for each requested port's engine, and each has a
/// claimed primary plane.
pub open spec fn planes_ok(req: Seq<u32>, planes: Seq<EnginePlanes>) -> bool {
    planes.len() >= req.len() && forall|i: int| 0 <= i < req.len() ==> (#[trigger] first_claimed(planes[i].primary@)) is Some
}

/// What is granted for the `i`-th requested port.
pub open spec fn grant_of(d: Device, req: Seq<u32>, planes: Seq<EnginePlanes>, i: int) -> LeaseGrant {
    LeaseGrant {
        connector: req[i],
        crtc: lease_engine(d, req[i]),
        primary_plane: first_claimed(planes[i].primary@)->0,
        cursor_plane: first_claimed(planes[i].cursor@),
    }
}

/// Every requested port is offered for leasing on the device.
pub open spec fn lease_grantable(d: Device, req: Seq<u32>) -> bool {
    forall|i: int| 0 <= i < req.len() ==> leasable_port(d.leasable(), #[trigger] req[i])
}

/// A lease request that names a port showing an output of the device is
/// never granted.
pub proof fn lemma_lease_excludes_outputs(d: Device, req: Seq<u32>, c: u32)
    requires
        d.wf(),
        has_output_port(d.outputs(), c),
        req.contains(c),
    ensures
        !lease_grantable(d, req),
{
    let i = choose|i: int| 0 <= i < req.len() && req[i] == c;
    assert(!leasable_port(d.leasable(), req[i]));
}

pub open spec fn layout_width(s: Seq<(u64, u32, u32)>) -> nat
    decreases s.len(),
{
    if s.len() == 0 {
        0
    } else {
        layout_width(s.drop_last()) + s.last().2 as nat
    }
}

pub open spec fn clamp_u64(n: nat) -> u64 {
    if n > u64::MAX { u64::MAX } else { n as u64 }
}

/// The layout without the entries of device `node`.
pub open spec fn without_device(layout: Seq<(u64, u32, u32)>, node: u64) -> Seq<(u64, u32, u32)> {
    layout.filter(|e: (u64, u32, u32)| e.0 != node)
}

/// The layout without the entry of engine `k` on device `node`.
pub open spec fn unmapped(layout: Seq<(u64, u32, u32)>, node: u64, k: u32) -> Seq<(u64, u32, u32)> {
    layout.filter(|e: (u64, u32, u32)| !(e.0 == node && e.1 == k))
}

/// The layout after an output is set up or torn down.
pub open spec fn layout_after(layout: Seq<(u64, u32, u32)>, ev: Option<OutputEvent>) -> Seq<(u64, u32, u32)> {
    match ev {
        Some(OutputEvent::OutputCreated { node, surface }) => layout.push((node, surface.crtc, surface.mode.width)),
        Some(OutputEvent::OutputRemoved { node, crtc, .. }) => unmapped(layout, node, crtc),
        _ => layout,
    }
}

pub open spec fn emit(s: Seq<OutputEvent>, ev: Option<OutputEvent>) -> Seq<OutputEvent> {
    match ev {
        Some(e) => s.push(e),
        None => s,
    }
}

/// A device's ports, the layout, and the events emitted so far.
pub struct RouteModel {
    pub ports: PortState,
    pub layout: Seq<(u64, u32, u32)>,
    pub emitted: Seq<OutputEvent>,
}

/// Carrying out one scan event on device `node`: a connection with an
/// engine sets the port up, placing a new output right of the layout; a
/// disconnection with an engine tears it down; an event without engine is
/// passed over.
pub open spec fn route_step(
    m: RouteModel,
    node: u64,
    render_node: u64,
    disable_direct_scanout: bool,
    e: ScanEventView,
) -> RouteModel {
    match e.2 {
        None => m,
        Some(k) => {
            let (p, ev) = if e.0 {
                connect_spec(m.ports, node, render_node, disable_direct_scanout, e.1, k, clamp_u64(layout_width(m.layout)))
            } else {
                disconnect_spec(m.ports, node, e.1.handle, k)
            };
            RouteModel { ports: p, layout: layout_after(m.layout, ev), emitted: emit(m.emitted, ev) }
        },
    }
}

/// Carrying out scan events in order.
pub open spec fn route_spec(
    m: RouteModel,
    node: u64,
    render_node: u64,
    disable_direct_scanout: bool,
    evs: Seq<ScanEventView>,
) -> RouteModel
    decreases evs.len(),
{
    if evs.len() == 0 {
        m
    } else {
        route_step(route_spec(m, node, render_node, disable_direct_scanout, evs.drop_last()), node, render_node,
            disable_direct_scanout, evs.last())
    }
}

/// `ev` are the events a scan of ports `fresh` reports against snapshot
/// `snap`: disconnections first, each with the engine it had under `a0`,
/// then connections, each with the engine it got under `a1`.
pub open spec fn scan_events(
    ev: Seq<ScanEventView>,
    snap: Seq<ConnectorView>,
    a0: Seq<(u32, u32)>,
    a1: Seq<(u32, u32)>,
    fresh: Seq<ConnectorView>,
) -> bool {
    let o = scan_outcome(snap, fresh);
    let d = o.disconnected.len();
    &&& ev.len() == d + o.connected.len()
    &&& forall|i: int| 0 <= i < d ==> !(#[trigger] ev[i]).0 && ev[i].1 == o.disconnected[i]
        && reports_engine(a0, ev[i].1.handle, ev[i].2)
    &&& forall|i: int| d <= i < ev.len() ==> (#[trigger] ev[i]).0 && ev[i].1 == o.connected[i - d]
        && reports_engine(a1, ev[i].1.handle, ev[i].2)
}

/// Device `d0` became `d1`, and the layout `l0` became `l1`, by carrying
/// out, in order, the events of a scan of ports `fresh`; `emitted` are the
/// resulting requests.
pub open spec fn rescanned(
    d0: Device,
    d1: Device,
    l0: Seq<(u64, u32, u32)>,
    l1: Seq<(u64, u32, u32)>,
    emitted: Seq<OutputEvent>,
    disable_direct_scanout: bool,
    fresh: Seq<ConnectorView>,
) -> bool {
    exists|ev: Seq<ScanEventView>| {
        &&& scan_events(ev, d0.scanner().snapshot(), d0.scanner().assignment(), d1.scanner().assignment(), fresh)
        &&& (RouteModel { ports: ports_of(d1), layout: l1, emitted }) == route_spec(
            RouteModel { ports: ports_of(d0), layout: l0, emitted: seq![] },
            d0.node_id(),
            d0.render_node_id(),
            disable_direct_scanout,
            ev,
        )
    }
}

proof fn lemma_route_nothing(m: RouteModel, node: u64, render_node: u64, dds: bool, ev: Seq<ScanEventView>)
    requires
        ev.len() == 0,
    ensures
        route_spec(m, node, render_node, dds, ev) == m,
{
}

/// A rescan that reports no connection or disconnection changes no output,
/// no leasable port and no layout entry, and asks for nothing.
pub proof fn lemma_quiet_rescan(
    d0: Device,
    d1: Device,
    l0: Seq<(u64, u32, u32)>,
    l1: Seq<(u64, u32, u32)>,
    emitted: Seq<OutputEvent>,
    disable_direct_scanout: bool,
    fresh: Seq<ConnectorView>,
)
    requires
        rescanned(d0, d1, l0, l1, emitted, disable_direct_scanout, fresh),
        scan_outcome(d0.scanner().snapshot(), fresh).connected.len() == 0,
        scan_outcome(d0.scanner().snapshot(), fresh).disconnected.len() == 0,
    ensures
        emitted.len() == 0,
        ports_of(d1) == ports_of(d0),
        l1 == l0,
{
    let ev = choose|ev: Seq<ScanEventView>| {
        &&& scan_events(ev, d0.scanner().snapshot(), d0.scanner().assignment(), d1.scanner().assignment(), fresh)
        &&& (RouteModel { ports: ports_of(d1), layout: l1, emitted }) == route_spec(
            RouteModel { ports: ports_of(d0), layout: l0, emitted: seq![] },
            d0.node_id(),
            d0.render_node_id(),
            disable_direct_scanout,
            ev,
        )
    };
    lemma_route_nothing(RouteModel { ports: ports_of(d0), layout: l0, emitted: seq![] }, d0.node_id(),
        d0.render_node_id(), disable_direct_scanout, ev);
}

/// Rescanning a device with the ports (distinct handles) its last scan
/// recorded asks for nothing and changes no output, leasable port or layout
/// entry.
pub proof fn lemma_rescan_twice_quiet(
    snap: Seq<ConnectorView>,
    fresh: Seq<ConnectorView>,
    d0: Device,
    d1: Device,
    l0: Seq<(u64, u32, u32)>,
    l1: Seq<(u64, u32, u32)>,
    emitted: Seq<OutputEvent>,
    disable_direct_scanout: bool,
)
    requires
        unique_handles(snap),
        unique_handles(fresh),
        d0.scanner().snapshot() == snapshot_after(snap, fresh),
        rescanned(d0, d1, l0, l1, emitted, disable_direct_scanout, fresh),
    ensures
        emitted.len() == 0,
        ports_of(d1) == ports_of(d0),
        l1 == l0,
{
    lemma_scan_twice(snap, fresh);
    lemma_quiet_rescan(d0, d1, l0, l1, emitted, disable_direct_scanout, fresh);
}

pub open spec fn event_node(e: OutputEvent) -> u64 {
    match e {
        OutputEvent::OutputCreated { node, .. } => node,
        OutputEvent::OutputRemoved { node, .. } => node,
        OutputEvent::LeaseOffered { node, .. } => node,
        OutputEvent::LeaseWithdrawn { node, .. } => node,
    }
}

/// Every GPU with display control, keyed by device node, and the layout of
/// their outputs.
pub struct Registry {
    primary_gpu: u64,
    devices: Vec<Device>,
    layout: Vec<(u64, u32, u32)>,
    session_active: bool,
    disable_direct_scanout: bool,
}

impl Registry {
    pub closed spec fn devices(&self) -> Seq<Device> {
        self.devices@
    }

    /// The outputs as laid out left to right: (device, engine, width).
    pub closed spec fn layout(&self) -> Seq<(u64, u32, u32)> {
        self.layout@
    }

    pub closed spec fn primary(&self) -> u64 {
        self.primary_gpu
    }

    pub closed spec fn is_session_active(&self) -> bool {
        self.session_active
    }

    pub closed spec fn direct_scanout_disabled(&self) -> bool {
        self.disable_direct_scanout
    }

    pub open spec fn has_device(&self, node: u64) -> bool {
        exists|i: int| 0 <= i < self.devices().len() && (#[trigger] self.devices()[i]).node_id() == node
    }

    /// Every device is well formed and no two share a node.
    pub open spec fn wf(&self) -> bool {
        &&& forall|i: int| 0 <= i < self.devices().len() ==> (#[trigger] self.devices()[i]).wf()
        &&& forall|i: int, j: int| 0 <= i < j < self.devices().len() ==>
            self.devices()[i].node_id() != self.devices()[j].node_id()
    }

    pub fn new(primary_gpu: u64, disable_direct_scanout: bool) -> (r: Self)
        ensures
            r.wf(),
            r.devices().len() == 0,
            r.layout().len() == 0,
            r.primary() == primary_gpu,
            r.is_session_active(),
            r.direct_scanout_disabled() == disable_direct_scanout,
    {
        Registry { primary_gpu, devices: Vec::new(), layout: Vec::new(), session_active: true, disable_direct_scanout }
    }

    pub fn primary_gpu(&self) -> (r: u64)
        ensures
            r == self.primary(),
    {
        self.primary_gpu
    }

    pub fn device_index(&self, node: u64) -> (r: Option<usize>)
        requires
            self.wf(),
        ensures
            r is None <==> !self.has_device(node),
            r matches Some(i) ==> i < self.devices().len() && self.devices()[i as int].node_id() == node,
    {
        let mut i: usize = 0;
        while i < self.devices.len()
            invariant
                i <= self.devices@.len(),
                forall|j: int| 0 <= j < i ==> (#[trigger] self.devices@[j]).node_id() != node,
            decreases self.devices.len() - i,
        {
            if self.devices[i].node == node {
                assert(self.devices()[i as int].node_id() == node);
                return Some(i);
            }
            i += 1;
        }
        None
    }

    /// The device of node `node`.
    pub fn device(&self, node: u64) -> (r: Option<&Device>)
        requires
            self.wf(),
        ensures
            r is None <==> !self.has_device(node),
            r matches Some(d) ==> d.node_id() == node && self.devices().contains(*d),
    {
        match self.device_index(node) {
            None => None,
            Some(i) => {
                assert(self.devices()[i as int] == self.devices@[i as int]);
                Some(&self.devices[i])
            },
        }
    }

    /// Where the next output goes: right of all outputs laid out so far.
    pub fn next_x(&self) -> (r: u64)
        ensures
            r == clamp_u64(layout_width(self.layout())),
    {
        let mut x: u64 = 0;
        let mut i: usize = 0;
        while i < self.layout.len()
            invariant
                i <= self.layout@.len(),
                x == clamp_u64(layout_width(self.layout@.take(i as int))),
            decreases self.layout.len() - i,
        {
            assert(self.layout@.take(i as int + 1).drop_last() =~= self.layout@.take(i as int));
            x = x.saturating_add(self.layout[i].2 as u64);
            i += 1;
        }
        assert(self.layout@.take(i as int) =~= self.layout@);
        x
    }

    /// How output `s` is rendered: by the primary GPU alone, or by another GPU
    /// with a copy in `format`.
    pub fn renderer_for(&self, s: &OutputSurface, format: u32) -> (r: RendererKind)
        ensures
            s.render_node == self.primary() ==> r == RendererKind::SingleGpu,
            s.render_node != self.primary() ==> r == (RendererKind::CrossGpu { format }),
    {
        if s.render_node == self.primary_gpu {
            RendererKind::SingleGpu
        } else {
            RendererKind::CrossGpu { format }
        }
    }

    /// Whether the output is rendered by the primary GPU.
    pub fn same_gpu(&self, s: &OutputSurface) -> (r: bool)
        ensures
            r == (s.render_node == self.primary()),
    {
        s.render_node == self.primary_gpu
    }

    /// The output of engine `k` on device `node`; none once either is gone,
    /// so a late timer or vblank finds nothing to act on.
    pub fn surface(&self, node: u64, k: u32) -> (r: Option<OutputSurface>)
        requires
            self.wf(),
        ensures
            !self.has_device(node) ==> r is None,
            forall|i: int| 0 <= i < self.devices().len() && (#[trigger] self.devices()[i]).node_id() == node ==> {
                let o = self.devices()[i].outputs();
                &&& (r is None <==> !has_output_crtc(o, k))
                &&& (r matches Some(s) ==> s == o[crtc_index(o, k)] && s.crtc == k)
            },
    {
        match self.device_index(node) {
            None => None,
            Some(i) => {
                proof {
                    self.lemma_index_unique(node, i as int);
                    assert(self.devices()[i as int].wf());
                }
                self.devices[i].surface(k)
            },
        }
    }

    /// The engines of device `node` to render: engine `k` alone, or with no
    /// engine given all its outputs; nothing for a device that is gone, that
    /// waits for the session, or that halted.
    pub fn render_targets(&self, node: u64, k: Option<u32>) -> (r: Vec<u32>)
        requires
            self.wf(),
        ensures
            !self.has_device(node) ==> r@.len() == 0,
            forall|i: int| 0 <= i < self.devices().len() && (#[trigger] self.devices()[i]).node_id() == node ==>
                (self.devices()[i].is_suspended() || self.devices()[i].is_halted() ==> r@.len() == 0),
            forall|i: int| 0 <= i < self.devices().len() && (#[trigger] self.devices()[i]).node_id() == node
                && !self.devices()[i].is_suspended() && !self.devices()[i].is_halted() ==>
                (k is None ==> r@ == self.devices()[i].outputs().map_values(|s: OutputSurface| s.crtc))
                && (k matches Some(c) ==> (has_output_crtc(self.devices()[i].outputs(), c) ==> r@ == seq![c])
                    && (!has_output_crtc(self.devices()[i].outputs(), c) ==> r@.len() == 0)),
    {
        match self.device_index(node) {
            None => Vec::new(),
            Some(i) => {
                proof {
                    self.lemma_index_unique(node, i as int);
                }
                assert(self.devices()[i as int].wf());
                if self.devices[i].is_scheduling() {
                    self.devices[i].render_targets(k)
                } else {
                    Vec::new()
                }
            },
        }
    }
}

impl Registry {
    /// Drops the layout entry of engine `k` on device `node`.
    fn unmap_output(&mut self, node: u64, k: u32)
        ensures
            final(self).layout() == unmapped(old(self).layout(), node, k),
            final(self).devices() == old(self).devices(),
            final(self).primary() == old(self).primary(),
            final(self).is_session_active() == old(self).is_session_active(),
            final(self).direct_scanout_disabled() == old(self).direct_scanout_disabled(),
    {
        let mut kept: Vec<(u64, u32, u32)> = Vec::new();
        let mut i: usize = 0;
        while i < self.layout.len()
            invariant
                i <= self.layout@.len(),
                kept@ == unmapped(self.layout@.take(i as int), node, k),
            decreases self.layout.len() - i,
        {
            let e = self.layout[i];
            proof {
                assert(self.layout@.take(i as int + 1).drop_last() =~= self.layout@.take(i as int));
                reveal(Seq::filter);
            }
            if !(e.0 == node && e.1 == k) {
                kept.push(e);
            }
            i += 1;
        }
        assert(self.layout@.take(i as int) =~= self.layout@);
        self.layout = kept;
    }

    /// Carries out the scan events of `dev` (taken out of the registry): each
    /// connection sets up its port, each disconnection tears it down; ports
    /// without engine are left alone. The layout follows the outputs.
    fn route(&mut self, dev: &mut Device, events: &Vec<DrmScanEvent>) -> (r: Vec<OutputEvent>)
        requires
            old(dev).wf(),
        ensures
            final(dev).is_suspended() == old(dev).is_suspended(),
            final(dev).is_halted() == old(dev).is_halted(),
            final(dev).wf(),
            final(dev).node_id() == old(dev).node_id(),
            final(dev).render_node_id() == old(dev).render_node_id(),
            final(dev).leasing_enabled() == old(dev).leasing_enabled(),
            final(dev).scanner() == old(dev).scanner(),
            final(dev).leases() == old(dev).leases(),
            final(self).devices() == old(self).devices(),
            final(self).primary() == old(self).primary(),
            final(self).is_session_active() == old(self).is_session_active(),
            final(self).direct_scanout_disabled() == old(self).direct_scanout_disabled(),
            forall|i: int| 0 <= i < r@.len() ==> event_node(#[trigger] r@[i]) == old(dev).node_id(),
            (RouteModel { ports: ports_of(*final(dev)), layout: final(self).layout(), emitted: r@ }) == route_spec(
                RouteModel { ports: ports_of(*old(dev)), layout: old(self).layout(), emitted: seq![] },
                old(dev).node_id(),
                old(dev).render_node_id(),
                old(self).direct_scanout_disabled(),
                events@.map_values(|e: DrmScanEvent| event_view(e)),
            ),
    {
        let mut out: Vec<OutputEvent> = Vec::new();
        let mut i: usize = 0;
        let ghost d0 = *dev;
        let ghost m0 = RouteModel { ports: ports_of(*dev), layout: self.layout(), emitted: seq![] };
        let ghost evs = events@.map_values(|e: DrmScanEvent| event_view(e));
        assert(evs.take(0) =~= Seq::<ScanEventView>::empty());
        assert(out@ =~= Seq::<OutputEvent>::empty());
        while i < events.len()
            invariant
                i <= events@.len(),
                dev.wf(),
                dev.node_id() == d0.node_id(),
                dev.render_node_id() == d0.render_node_id(),
                dev.leasing_enabled() == d0.leasing_enabled(),
                dev.is_suspended() == d0.is_suspended(),
                dev.is_halted() == d0.is_halted(),
                dev.scanner() == d0.scanner(),
                dev.leases() == d0.leases(),
                self.devices() == old(self).devices(),
                self.primary() == old(self).primary(),
                self.is_session_active() == old(self).is_session_active(),
                self.direct_scanout_disabled() == old(self).direct_scanout_disabled(),
                forall|j: int| 0 <= j < out@.len() ==> event_node(#[trigger] out@[j]) == d0.node_id(),
                evs == events@.map_values(|e: DrmScanEvent| event_view(e)),
                (RouteModel { ports: ports_of(*dev), layout: self.layout(), emitted: out@ }) == route_spec(
                    m0, d0.node_id(), d0.render_node_id(), self.direct_scanout_disabled(), evs.take(i as int)),
            decreases events.len() - i,
        {
            proof {
                assert(evs.take(i as int + 1).drop_last() =~= evs.take(i as int));
                assert(evs.take(i as int + 1).last() == event_view(events@[i as int]));
            }
            let e = match &events[i] {
                DrmScanEvent::Connected { connector, crtc: Some(k) } => {
                    let x = self.next_x();
                    let e = dev.connector_connected(connector, *k, x, self.disable_direct_scanout);
                    if let Some(OutputEvent::OutputCreated { node, surface }) = e {
                        self.layout.push((node, surface.crtc, surface.mode.width));
                    }
                    e
                },
                DrmScanEvent::Disconnected { connector, crtc: Some(k) } => {
                    let e = dev.connector_disconnected(connector.handle, *k);
                    if let Some(OutputEvent::OutputRemoved { node, crtc, .. }) = e {
                        self.unmap_output(node, crtc);
                    }
                    e
                },
                _ => None,
            };
            if let Some(e) = e {
                out.push(e);
            }
            i += 1;
        }
        assert(evs.take(i as int) =~= evs);
        out
    }

    /// Rescans device `node` after a change notification: `crtcs` are its
    /// engines and `fresh` its ports as just enumerated. Returns what to set
    /// up and tear down; nothing for an unknown device.
    pub fn device_changed(&mut self, node: u64, crtcs: &Vec<u32>, fresh: Vec<ConnectorInfo>) -> (r: Vec<OutputEvent>)
        requires
            old(self).wf(),
        ensures
            final(self).wf(),
            !old(self).has_device(node) ==> r@.len() == 0 && final(self).devices() == old(self).devices()
                && final(self).layout() == old(self).layout(),
            final(self).devices().len() == old(self).devices().len(),
            forall|i: int| 0 <= i < old(self).devices().len() && (#[trigger] old(self).devices()[i]).node_id() != node
                ==> final(self).devices()[i] == old(self).devices()[i],
            forall|i: int| 0 <= i < old(self).devices().len() && (#[trigger] old(self).devices()[i]).node_id() == node ==> {
                let d0 = old(self).devices()[i];
                let d1 = final(self).devices()[i];
                &&& d1.node_id() == node
                &&& d1.render_node_id() == d0.render_node_id()
                &&& d1.leasing_enabled() == d0.leasing_enabled()
                &&& d1.is_suspended() == d0.is_suspended()
                &&& d1.is_halted() == d0.is_halted()
                &&& d1.leases() == d0.leases()
                &&& d1.scanner().snapshot() == snapshot_after(d0.scanner().snapshot(), views(fresh@))
                &&& map_post(d0.scanner().assignment(), d1.scanner().assignment(), crtcs@, d1.scanner().snapshot())
                &&& d1.scanner().assignment() == simple_map(d0.scanner().assignment(), crtcs@, d1.scanner().snapshot())
                &&& rescanned(d0, d1, old(self).layout(), final(self).layout(), r@,
                    old(self).direct_scanout_disabled(), views(fresh@))
            },
            forall|i: int| 0 <= i < r@.len() ==> event_node(#[trigger] r@[i]) == node,
            final(self).primary() == old(self).primary(),
            final(self).is_session_active() == old(self).is_session_active(),
    {
        let idx = match self.device_index(node) {
            None => {
                return Vec::new();
            },
            Some(i) => i,
        };
        let ghost devs0 = self.devices@;
        let mut dev = self.devices.remove(idx);
        assert(dev == devs0[idx as int]);
        assert(dev.wf());
        let ghost snap0 = dev.scanner().snapshot();
        let ghost a0 = dev.scanner().assignment();
        let ghost fv = views(fresh@);
        let result = dev.scanner.scan_connectors(crtcs, fresh);
        let events = result.iter();
        proof {
            let ev = result.event_views();
            let o = scan_outcome(snap0, fv);
            let d = result.disconnected@.len();
            assert(item_views(result.disconnected@) == o.disconnected);
            assert(item_views(result.connected@) == o.connected);
            assert forall|i: int| 0 <= i < d implies !(#[trigger] ev[i]).0 && ev[i].1 == o.disconnected[i]
                && reports_engine(a0, ev[i].1.handle, ev[i].2) by {
                assert(ev[i] == tagged(result.disconnected@, false)[i]);
                assert(item_views(result.disconnected@)[i] == result.disconnected@[i].0@);
            }
            assert forall|i: int| d <= i < ev.len() implies (#[trigger] ev[i]).0 && ev[i].1 == o.connected[i - d]
                && reports_engine(dev.scanner().assignment(), ev[i].1.handle, ev[i].2) by {
                assert(ev[i] == tagged(result.connected@, true)[i - d]);
                assert(item_views(result.connected@)[i - d] == result.connected@[i - d].0@);
            }
            assert(scan_events(ev, snap0, a0, dev.scanner().assignment(), fv));
        }
        let ghost dmid = dev;
        let ghost lay0 = self.layout();
        let out = self.route(&mut dev, &events);
        self.devices.insert(idx, dev);
        proof {
            let ev = result.event_views();
            assert(ports_of(dmid) == ports_of(devs0[idx as int]));
            assert(scan_events(ev, snap0, a0, dev.scanner().assignment(), fv));
            assert((RouteModel { ports: ports_of(dev), layout: self.layout(), emitted: out@ }) == route_spec(
                RouteModel { ports: ports_of(devs0[idx as int]), layout: lay0, emitted: seq![] },
                node,
                devs0[idx as int].render_node_id(),
                self.direct_scanout_disabled(),
                ev,
            ));
            let d0 = devs0[idx as int];
            assert(self.devices@[idx as int] == dev);
            assert(d0.scanner().snapshot() == snap0);
            assert(rescanned(d0, dev, lay0, self.layout(), out@, self.direct_scanout_disabled(), fv));
            assert(self.devices@ =~= devs0.update(idx as int, dev));
            assert forall|i: int| 0 <= i < old(self).devices().len() && (#[trigger] old(self).devices()[i]).node_id() == node
                implies i == idx by {
                if i != idx {
                    if i < idx {
                        assert(devs0[i].node_id() != devs0[idx as int].node_id());
                    } else {
                        assert(devs0[idx as int].node_id() != devs0[i].node_id());
                    }
                }
            }
            assert forall|i: int| 0 <= i < self.devices().len() implies (#[trigger] self.devices()[i]).wf() by {
                if i != idx {
                    assert(self.devices()[i] == devs0[i]);
                }
            }
        }
        out
    }
}

impl Registry {
    proof fn lemma_index_unique(&self, node: u64, idx: int)
        requires
            self.wf(),
            0 <= idx < self.devices().len(),
            self.devices()[idx].node_id() == node,
        ensures
            forall|i: int| 0 <= i < self.devices().len() && (#[trigger] self.devices()[i]).node_id() == node ==> i == idx,
    {
        assert forall|i: int| 0 <= i < self.devices().len() && (#[trigger] self.devices()[i]).node_id() == node
            implies i == idx by {
            if i < idx {
                assert(self.devices()[i].node_id() != self.devices()[idx].node_id());
            } else if i > idx {
                assert(self.devices()[idx].node_id() != self.devices()[i].node_id());
            }
        }
    }

    /// Adds device `node`, rendered through `render_node`, with leasing if it
    /// could be set up, and scans it at once for the ports already present.
    pub fn device_added(
        &mut self,
        node: u64,
        render_node: u64,
        leasing: bool,
        crtcs: &Vec<u32>,
        fresh: Vec<ConnectorInfo>,
    ) -> (r: Result<Vec<OutputEvent>, HotplugError>)
        requires
            old(self).wf(),
        ensures
            final(self).wf(),
            old(self).has_device(node) <==> r is Err,
            r is Err ==> final(self).devices() == old(self).devices() && final(self).layout() == old(self).layout(),
            r is Ok ==> {
                let n = old(self).devices().len();
                let d = final(self).devices()[n as int];
                &&& final(self).devices().len() == n + 1
                &&& final(self).devices().take(n as int) == old(self).devices()
                &&& d.node_id() == node
                &&& d.render_node_id() == render_node
                &&& d.leasing_enabled() == leasing
                &&& d.leases().len() == 0
                &&& d.scanner().snapshot() == snapshot_after(Seq::empty(), views(fresh@))
                &&& map_post(Seq::empty(), d.scanner().assignment(), crtcs@, d.scanner().snapshot())
                &&& d.scanner().assignment() == simple_map(Seq::empty(), crtcs@, d.scanner().snapshot())
                &&& exists|d0: Device| {
                    &&& d0.node_id() == node
                    &&& d0.render_node_id() == render_node
                    &&& d0.outputs().len() == 0
                    &&& d0.leasable().len() == 0
                    &&& d0.scanner().snapshot().len() == 0
                    &&& d0.scanner().assignment().len() == 0
                    &&& rescanned(d0, d, old(self).layout(), final(self).layout(), r->Ok_0@,
                        old(self).direct_scanout_disabled(), views(fresh@))
                }
            },
            r matches Ok(v) ==> forall|i: int| 0 <= i < v@.len() ==> event_node(#[trigger] v@[i]) == node,
            final(self).primary() == old(self).primary(),
    {
        if self.device_index(node).is_some() {
            return Err(HotplugError::AlreadyAdded);
        }
        let dev = Device::new(node, render_node, leasing);
        assert(dev.wf());
        let ghost devs0 = self.devices@;
        assert(devs0 == self.devices());
        assert(forall|i: int| 0 <= i < devs0.len() ==> (#[trigger] devs0[i]).node_id() != node);
        assert(forall|i: int| 0 <= i < devs0.len() ==> (#[trigger] devs0[i]).wf());
        let n = self.devices.len();
        self.devices.push(dev);
        proof {
            assert(self.devices()[n as int] == dev);
            assert forall|i: int| 0 <= i < self.devices().len() implies (#[trigger] self.devices()[i]).wf() by {
                if i < n {
                    assert(self.devices()[i] == devs0[i]);
                }
            }
            assert forall|i: int, j: int| 0 <= i < j < self.devices().len() implies
                self.devices()[i].node_id() != self.devices()[j].node_id() by {
                if j == n {
                    assert(self.devices()[i] == devs0[i]);
                    assert(!(0 <= i < devs0.len() && (#[trigger] devs0[i]).node_id() == node));
                } else {
                    assert(self.devices()[i] == devs0[i]);
                    assert(self.devices()[j] == devs0[j]);
                }
            }
            assert(self.devices()[n as int].node_id() == node);
        }
        let ghost mid = self.devices();
        let out = self.device_changed(node, crtcs, fresh);
        proof {
            assert(mid[n as int] == dev);
            assert(mid[n as int].node_id() == node);
            assert(dev.scanner().snapshot() =~= Seq::<crate::connector::ConnectorView>::empty());
            assert(dev.scanner().assignment() =~= Seq::<(u32, u32)>::empty());
            assert forall|i: int| 0 <= i < n implies self.devices()[i] == devs0[i] by {
                assert(mid[i] == devs0[i]);
                assert(mid[i].node_id() != node);
            }
            assert(self.devices().take(n as int) =~= devs0);
            assert(rescanned(dev, self.devices()[n as int], old(self).layout(), self.layout(), out@,
                old(self).direct_scanout_disabled(), views(fresh@)));
        }
        Ok(out)
    }

    /// Removes device `node`: every output and every leasable port it has is
    /// torn down and the device is dropped, so nothing is rendered or timed
    /// for it afterwards. Nothing happens for an unknown device.
    pub fn device_removed(&mut self, node: u64) -> (r: Result<Vec<OutputEvent>, HotplugError>)
        requires
            old(self).wf(),
        ensures
            final(self).wf(),
            !final(self).has_device(node),
            !old(self).has_device(node) <==> r == Err::<Vec<OutputEvent>, HotplugError>(HotplugError::Untracked),
            r is Err ==> final(self).devices() == old(self).devices() && final(self).layout() == old(self).layout(),
            r is Ok ==> final(self).layout() == without_device(old(self).layout(), node),
            forall|i: int| 0 <= i < old(self).devices().len() && (#[trigger] old(self).devices()[i]).node_id() == node ==> {
                let d = old(self).devices()[i];
                let v = r->Ok_0@;
                &&& final(self).devices() == old(self).devices().remove(i)
                &&& v.len() == d.outputs().len() + d.leasable().len()
                &&& forall|j: int| 0 <= j < d.outputs().len() ==> v[j] == (OutputEvent::OutputRemoved {
                        node,
                        crtc: (#[trigger] d.outputs()[j]).crtc,
                        connector: d.outputs()[j].connector,
                    })
                &&& forall|j: int| 0 <= j < d.leasable().len() ==> v[d.outputs().len() + j] == (OutputEvent::LeaseWithdrawn {
                        node,
                        connector: (#[trigger] d.leasable()[j]).0,
                    })
            },
            final(self).primary() == old(self).primary(),
    {
        let idx = match self.device_index(node) {
            None => {
                return Err(HotplugError::Untracked);
            },
            Some(i) => i,
        };
        proof {
            self.lemma_index_unique(node, idx as int);
        }
        let ghost devs0 = self.devices@;
        let dev = self.devices.remove(idx);
        let mut out: Vec<OutputEvent> = Vec::new();
        let mut i: usize = 0;
        while i < dev.surfaces.len()
            invariant
                i <= dev.surfaces@.len(),
                dev.node == node,
                out@.len() == i,
                forall|j: int| 0 <= j < i ==> out@[j] == (OutputEvent::OutputRemoved {
                    node,
                    crtc: (#[trigger] dev.surfaces@[j]).crtc,
                    connector: dev.surfaces@[j].connector,
                }),
            decreases dev.surfaces.len() - i,
        {
            let s = dev.surfaces[i];
            out.push(OutputEvent::OutputRemoved { node, crtc: s.crtc, connector: s.connector });
            i += 1;
        }
        let mut j: usize = 0;
        while j < dev.non_desktop.len()
            invariant
                j <= dev.non_desktop@.len(),
                out@.len() == dev.surfaces@.len() + j,
                forall|a: int| 0 <= a < dev.surfaces@.len() ==> out@[a] == (OutputEvent::OutputRemoved {
                    node,
                    crtc: (#[trigger] dev.surfaces@[a]).crtc,
                    connector: dev.surfaces@[a].connector,
                }),
                forall|a: int| 0 <= a < j ==> out@[dev.surfaces@.len() + a] == (OutputEvent::LeaseWithdrawn {
                    node,
                    connector: (#[trigger] dev.non_desktop@[a]).0,
                }),
            decreases dev.non_desktop.len() - j,
        {
            out.push(OutputEvent::LeaseWithdrawn { node, connector: dev.non_desktop[j].0 });
            j += 1;
        }
        self.unmap_device(node);
        proof {
            assert(self.devices@ =~= devs0.remove(idx as int));
            assert forall|a: int| 0 <= a < self.devices().len() implies (#[trigger] self.devices()[a]).wf() by {
                if a < idx { assert(self.devices()[a] == devs0[a]); } else { assert(self.devices()[a] == devs0[a + 1]); }
            }
            assert forall|a: int, b: int| 0 <= a < b < self.devices().len() implies
                self.devices()[a].node_id() != self.devices()[b].node_id() by {
                let a0 = if a < idx { a } else { a + 1 };
                let b0 = if b < idx { b } else { b + 1 };
                assert(self.devices()[a] == devs0[a0]);
                assert(self.devices()[b] == devs0[b0]);
            }
            if self.has_device(node) {
                let a = choose|a: int| 0 <= a < self.devices().len() && (#[trigger] self.devices()[a]).node_id() == node;
                let a0 = if a < idx { a } else { a + 1 };
                assert(self.devices()[a] == devs0[a0]);
            }
        }
        Ok(out)
    }

    /// Drops every layout entry of device `node`.
    fn unmap_device(&mut self, node: u64)
        ensures
            final(self).layout() == without_device(old(self).layout(), node),
            final(self).devices() == old(self).devices(),
            final(self).primary() == old(self).primary(),
            final(self).is_session_active() == old(self).is_session_active(),
            final(self).direct_scanout_disabled() == old(self).direct_scanout_disabled(),
    {
        let mut kept: Vec<(u64, u32, u32)> = Vec::new();
        let mut i: usize = 0;
        while i < self.layout.len()
            invariant
                i <= self.layout@.len(),
                kept@ == without_device(self.layout@.take(i as int), node),
            decreases self.layout.len() - i,
        {
            let e = self.layout[i];
            proof {
                assert(self.layout@.take(i as int + 1).drop_last() =~= self.layout@.take(i as int));
                reveal(Seq::filter);
            }
            if e.0 != node {
                kept.push(e);
            }
            i += 1;
        }
        assert(self.layout@.take(i as int) =~= self.layout@);
        self.layout = kept;
    }
}

impl Registry {
    /// Checks a lease request for ports `req` of device `node`.
    pub fn lease_request(&self, node: u64, req: &Vec<u32>) -> (r: Result<Vec<(u32, u32)>, LeaseError>)
        requires
            self.wf(),
        ensures
            !self.has_device(node) ==> r == Err::<Vec<(u32, u32)>, LeaseError>(LeaseError::UnknownDevice),
            forall|i: int| 0 <= i < self.devices().len() && (#[trigger] self.devices()[i]).node_id() == node ==>
                (r is Ok <==> lease_grantable(self.devices()[i], req@))
                && (r is Err ==> r == Err::<Vec<(u32, u32)>, LeaseError>(LeaseError::DesktopConnector))
                && (r matches Ok(v) ==> v@.len() == req@.len() && forall|j: int| 0 <= j < v@.len() ==>
                    (#[trigger] v@[j]).0 == req@[j] && self.devices()[i].leasable().contains(v@[j])),
    {
        match self.device_index(node) {
            None => Err(LeaseError::UnknownDevice),
            Some(i) => {
                proof {
                    self.lemma_index_unique(node, i as int);
                    assert(self.devices()[i as int].wf());
                }
                self.devices[i].lease_request(req)
            },
        }
    }

    /// Puts device `idx` back after changing it in place of the registry.
    proof fn lemma_replace(&self, old_devs: Seq<Device>, idx: int, d: Device)
        requires
            forall|i: int| 0 <= i < old_devs.len() ==> (#[trigger] old_devs[i]).wf(),
            forall|i: int, j: int| 0 <= i < j < old_devs.len() ==> old_devs[i].node_id() != old_devs[j].node_id(),
            0 <= idx < old_devs.len(),
            d.wf(),
            d.node_id() == old_devs[idx].node_id(),
            self.devices() == old_devs.update(idx, d),
        ensures
            self.wf(),
    {
        assert forall|i: int| 0 <= i < self.devices().len() implies (#[trigger] self.devices()[i]).wf() by {
            if i != idx {
                assert(self.devices()[i] == old_devs[i]);
            }
        }
    }

    /// Records lease `id` granted on device `node`.
    pub fn new_active_lease(&mut self, node: u64, id: u32)
        requires
            old(self).wf(),
        ensures
            final(self).wf(),
            final(self).devices().len() == old(self).devices().len(),
            forall|i: int| 0 <= i < old(self).devices().len() ==> {
                let d0 = old(self).devices()[i];
                let d1 = (#[trigger] final(self).devices()[i]);
                &&& d0.node_id() != node ==> d1 == d0
                &&& d0.node_id() == node ==> keeps_setup(d0, d1) && d1.is_suspended() == d0.is_suspended()
                    && d1.is_halted() == d0.is_halted() && d1.leases() == d0.leases().push(id)
            },
            final(self).layout() == old(self).layout(),
            final(self).is_session_active() == old(self).is_session_active(),
    {
        if let Some(idx) = self.device_index(node) {
            proof {
                self.lemma_index_unique(node, idx as int);
            }
            let ghost devs0 = self.devices@;
            let mut dev = self.devices.remove(idx);
            assert(dev == devs0[idx as int] && dev.wf());
            dev.new_active_lease(id);
            self.devices.insert(idx, dev);
            proof {
                assert(self.devices@ =~= devs0.update(idx as int, dev));
                self.lemma_replace(devs0, idx as int, dev);
            }
        }
    }

    /// Forgets lease `id` of device `node`, which has ended.
    pub fn lease_destroyed(&mut self, node: u64, id: u32)
        requires
            old(self).wf(),
        ensures
            final(self).wf(),
            final(self).devices().len() == old(self).devices().len(),
            forall|i: int| 0 <= i < old(self).devices().len() ==> {
                let d0 = old(self).devices()[i];
                let d1 = (#[trigger] final(self).devices()[i]);
                &&& d0.node_id() != node ==> d1 == d0
                &&& d0.node_id() == node ==> keeps_setup(d0, d1) && d1.is_suspended() == d0.is_suspended()
                    && d1.is_halted() == d0.is_halted() && d1.leases() == d0.leases().filter(|l: u32| l != id)
            },
            final(self).layout() == old(self).layout(),
            final(self).is_session_active() == old(self).is_session_active(),
    {
        if let Some(idx) = self.device_index(node) {
            proof {
                self.lemma_index_unique(node, idx as int);
            }
            let ghost devs0 = self.devices@;
            let mut dev = self.devices.remove(idx);
            assert(dev == devs0[idx as int] && dev.wf());
            dev.lease_destroyed(id);
            self.devices.insert(idx, dev);
            proof {
                assert(self.devices@ =~= devs0.update(idx as int, dev));
                self.lemma_replace(devs0, idx as int, dev);
            }
        }
    }

    /// The session was switched away: no device may hold a lease any more.
    pub fn pause_session(&mut self)
        requires
            old(self).wf(),
        ensures
            final(self).wf(),
            !final(self).is_session_active(),
            final(self).devices().len() == old(self).devices().len(),
            forall|i: int| 0 <= i < old(self).devices().len() ==> {
                let d0 = old(self).devices()[i];
                let d1 = (#[trigger] final(self).devices()[i]);
                &&& keeps_setup(d0, d1)
                &&& d1.leases().len() == 0
                &&& d1.is_suspended()
                &&& d1.is_halted() == d0.is_halted()
            },
            final(self).layout() == old(self).layout(),
    {
        let ghost devs0 = self.devices@;
        let mut i: usize = 0;
        while i < self.devices.len()
            invariant
                i <= self.devices@.len(),
                self.devices@.len() == devs0.len(),
                self.wf(),
                self.layout() == old(self).layout(),
                forall|j: int| 0 <= j < devs0.len() ==> {
                    let d0 = devs0[j];
                    let d1 = (#[trigger] self.devices()[j]);
                    &&& keeps_setup(d0, d1)
                    &&& (j < i ==> d1.leases().len() == 0 && d1.is_suspended() && d1.is_halted() == d0.is_halted())
                    &&& (j >= i ==> d1 == d0)
                },
            decreases self.devices.len() - i,
        {
            let ghost cur = self.devices@;
            assert(cur == self.devices());
            assert(cur[i as int].wf());
            let mut dev = self.devices.remove(i);
            assert(dev == cur[i as int] && dev.wf());
            dev.pause();
            self.devices.insert(i, dev);
            proof {
                assert(self.devices@ =~= cur.update(i as int, dev));
                self.lemma_replace(cur, i as int, dev);
                assert forall|j: int| 0 <= j < devs0.len() implies {
                    let d0 = devs0[j];
                    let d1 = (#[trigger] self.devices()[j]);
                    &&& keeps_setup(d0, d1)
                    &&& (j < i + 1 ==> d1.leases().len() == 0 && d1.is_suspended() && d1.is_halted() == d0.is_halted())
                    &&& (j >= i + 1 ==> d1 == d0)
                } by {
                    if j != i {
                        assert(self.devices()[j] == cur[j]);
                    }
                }
            }
            i += 1;
        }
        let ghost before = self.devices();
        self.session_active = false;
        assert(self.devices() == before);
    }

    /// The session is back: every device that did not halt schedules again,
    /// and every device node is returned, each to be rendered at once.
    pub fn activate_session(&mut self) -> (r: Vec<u64>)
        requires
            old(self).wf(),
        ensures
            final(self).wf(),
            final(self).is_session_active(),
            final(self).devices().len() == old(self).devices().len(),
            forall|i: int| 0 <= i < old(self).devices().len() ==> {
                let d0 = old(self).devices()[i];
                (#[trigger] final(self).devices()[i]) == d0.with_flags(false, d0.is_halted())
            },
            final(self).layout() == old(self).layout(),
            r@ == old(self).devices().map_values(|d: Device| d.node_id()),
    {
        let ghost devs0 = self.devices@;
        let mut r: Vec<u64> = Vec::new();
        let mut i: usize = 0;
        while i < self.devices.len()
            invariant
                i <= self.devices@.len(),
                self.devices@.len() == devs0.len(),
                self.wf(),
                self.layout() == old(self).layout(),
                devs0 == old(self).devices(),
                forall|j: int| 0 <= j < devs0.len() ==> {
                    let d0 = devs0[j];
                    let d1 = (#[trigger] self.devices()[j]);
                    &&& d1.node_id() == d0.node_id()
                    &&& (j < i ==> d1 == d0.with_flags(false, d0.is_halted()))
                    &&& (j >= i ==> d1 == d0)
                },
                r@ == devs0.take(i as int).map_values(|d: Device| d.node_id()),
            decreases self.devices.len() - i,
        {
            let ghost cur = self.devices@;
            assert(cur == self.devices());
            assert(cur[i as int].wf());
            let mut dev = self.devices.remove(i);
            assert(dev == cur[i as int] && dev.wf());
            r.push(dev.node);
            let h = dev.halted;
            dev.set_flags(false, h);
            self.devices.insert(i, dev);
            proof {
                assert(self.devices@ =~= cur.update(i as int, dev));
                self.lemma_replace(cur, i as int, dev);
                assert(cur[i as int] == devs0[i as int]);
                assert(r@ =~= devs0.take(i as int + 1).map_values(|d: Device| d.node_id()));
                assert forall|j: int| 0 <= j < devs0.len() implies {
                    let d0 = devs0[j];
                    let d1 = (#[trigger] self.devices()[j]);
                    &&& d1.node_id() == d0.node_id()
                    &&& (j < i + 1 ==> d1 == d0.with_flags(false, d0.is_halted()))
                    &&& (j >= i + 1 ==> d1 == d0)
                } by {
                    if j != i {
                        assert(self.devices()[j] == cur[j]);
                    }
                }
            }
            i += 1;
        }
        assert(devs0.take(i as int) =~= devs0);
        let ghost before = self.devices();
        self.session_active = true;
        assert(self.devices() == before);
        r
    }
}

/// A vblank that reports the device inactive arms no timer and leaves the
/// device waiting for the session: `frame_event` records it so, and
/// `render_targets` gives nothing for it until `activate_session` clears it.
pub proof fn lemma_inactive_vblank_suspends(
    d: Device,
    hw_time_ns: Option<u64>,
    now_ns: u64,
    sequence: Option<u64>,
    refresh_mhz: u32,
    same_gpu: bool,
)
    ensures
        ({
            let dec = on_frame_event_spec(hw_time_ns, now_ns, sequence, Some(SubmitError::DeviceInactive),
                refresh_mhz, same_gpu);
            &&& dec.action == ScheduleAction::Suspend
            &&& dec.presentation is None
            &&& d.with_flags(d.is_suspended() || dec.action == ScheduleAction::Suspend,
                d.is_halted() || dec.action == ScheduleAction::Halt).is_suspended()
        }),
{
    d.lemma_with_flags(true, d.is_halted());
}

/// The output of engine `k` in `outputs`, if it has one with a usable refresh rate.
pub open spec fn timed_output(outputs: Seq<OutputSurface>, k: u32) -> Option<OutputSurface> {
    if has_output_crtc(outputs, k) && outputs[crtc_index(outputs, k)].mode.refresh_mhz > 0 {
        Some(outputs[crtc_index(outputs, k)])
    } else {
        None
    }
}

impl Registry {
    /// Finds the output of engine `k` on device `node` with a usable refresh rate.
    fn timed_surface(&self, node: u64, k: u32) -> (r: Option<(usize, OutputSurface)>)
        requires
            self.wf(),
        ensures
            !self.has_device(node) ==> r is None,
            r matches Some((i, s)) ==> i < self.devices().len() && self.devices()[i as int].node_id() == node
                && timed_output(self.devices()[i as int].outputs(), k) == Some(s),
            forall|i: int| 0 <= i < self.devices().len() && (#[trigger] self.devices()[i]).node_id() == node
                && timed_output(self.devices()[i].outputs(), k) is Some ==> r is Some,
    {
        match self.device_index(node) {
            None => None,
            Some(i) => {
                proof {
                    self.lemma_index_unique(node, i as int);
                    assert(self.devices()[i as int].wf());
                }
                match self.devices[i].surface(k) {
                    None => None,
                    Some(s) => if s.mode.refresh_mhz > 0 {
                        Some((i, s))
                    } else {
                        None
                    },
                }
            },
        }
    }

    /// Sets the scheduling flags of device `i`.
    fn set_device_flags(&mut self, i: usize, suspended: bool, halted: bool)
        requires
            old(self).wf(),
            i < old(self).devices().len(),
        ensures
            final(self).wf(),
            final(self).devices() == old(self).devices().update(i as int, old(self).devices()[i as int].with_flags(suspended, halted)),
            final(self).layout() == old(self).layout(),
            final(self).primary() == old(self).primary(),
            final(self).is_session_active() == old(self).is_session_active(),
            final(self).direct_scanout_disabled() == old(self).direct_scanout_disabled(),
    {
        let ghost devs0 = self.devices@;
        assert(devs0 == self.devices());
        assert(devs0[i as int].wf());
        let mut dev = self.devices.remove(i);
        dev.set_flags(suspended, halted);
        self.devices.insert(i, dev);
        proof {
            assert(self.devices@ =~= devs0.update(i as int, dev));
            self.lemma_replace(devs0, i as int, dev);
        }
    }

    /// Handles the vblank of engine `k` on device `node`: `hw_time_ns` is the
    /// hardware timestamp if the event had one, `now_ns` the software clock,
    /// `err` what acknowledging the submitted frame reported. Returns the
    /// decision for the output, and marks the device as waiting for the
    /// session or as halted when the decision says so. Nothing is decided for
    /// an output, or a device, that is gone.
    pub fn frame_event(
        &mut self,
        node: u64,
        k: u32,
        hw_time_ns: Option<u64>,
        now_ns: u64,
        sequence: Option<u64>,
        err: Option<SubmitError>,
    ) -> (r: Option<FrameDecision>)
        requires
            old(self).wf(),
        ensures
            final(self).wf(),
            final(self).layout() == old(self).layout(),
            final(self).primary() == old(self).primary(),
            final(self).is_session_active() == old(self).is_session_active(),
            !old(self).has_device(node) ==> r is None && final(self).devices() == old(self).devices(),
            forall|i: int| 0 <= i < old(self).devices().len() && (#[trigger] old(self).devices()[i]).node_id() == node ==> {
                let d = old(self).devices()[i];
                match timed_output(d.outputs(), k) {
                    None => r is None && final(self).devices() == old(self).devices(),
                    Some(s) => {
                        let dec = on_frame_event_spec(hw_time_ns, now_ns, sequence, err, s.mode.refresh_mhz,
                            s.render_node == old(self).primary());
                        &&& r == Some(dec)
                        &&& final(self).devices() == old(self).devices().update(i, d.with_flags(
                            d.is_suspended() || dec.action == ScheduleAction::Suspend,
                            d.is_halted() || dec.action == ScheduleAction::Halt))
                    },
                }
            },
    {
        match self.timed_surface(node, k) {
            None => {
                proof {
                    if self.has_device(node) {
                        let i = choose|i: int| 0 <= i < self.devices().len() && (#[trigger] self.devices()[i]).node_id() == node;
                        self.lemma_index_unique(node, i);
                    }
                }
                None
            },
            Some((i, s)) => {
                proof {
                    self.lemma_index_unique(node, i as int);
                }
                let same_gpu = s.render_node == self.primary_gpu;
                let dec = on_frame_event(hw_time_ns, now_ns, sequence, err, s.mode.refresh_mhz, same_gpu);
                let suspend = self.devices[i].suspended || dec.action == ScheduleAction::Suspend;
                let halt = self.devices[i].halted || dec.action == ScheduleAction::Halt;
                self.set_device_flags(i, suspend, halt);
                Some(dec)
            },
        }
    }

    /// Handles the outcome of rendering engine `k` on device `node` for frame
    /// target `target_ns`: `Ok(true)` for a damaged frame submitted,
    /// `Ok(false)` for nothing to show. Returns the decision, and marks the
    /// device as halted when the decision says so. Nothing is decided for an
    /// output, or a device, that is gone.
    pub fn render_done(
        &mut self,
        node: u64,
        k: u32,
        rendered: Result<bool, SubmitError>,
        target_ns: u64,
        now_ns: u64,
    ) -> (r: Option<RenderDecision>)
        requires
            old(self).wf(),
        ensures
            final(self).wf(),
            final(self).layout() == old(self).layout(),
            final(self).primary() == old(self).primary(),
            final(self).is_session_active() == old(self).is_session_active(),
            !old(self).has_device(node) ==> r is None && final(self).devices() == old(self).devices(),
            forall|i: int| 0 <= i < old(self).devices().len() && (#[trigger] old(self).devices()[i]).node_id() == node ==> {
                let d = old(self).devices()[i];
                match timed_output(d.outputs(), k) {
                    None => r is None && final(self).devices() == old(self).devices(),
                    Some(s) => {
                        let dec = after_render_spec(rendered, target_ns, now_ns, s.mode.refresh_mhz);
                        &&& r == Some(dec)
                        &&& final(self).devices() == old(self).devices().update(i, d.with_flags(
                            d.is_suspended(), d.is_halted() || dec.action == ScheduleAction::Halt))
                    },
                }
            },
    {
        match self.timed_surface(node, k) {
            None => {
                proof {
                    if self.has_device(node) {
                        let i = choose|i: int| 0 <= i < self.devices().len() && (#[trigger] self.devices()[i]).node_id() == node;
                        self.lemma_index_unique(node, i);
                    }
                }
                None
            },
            Some((i, s)) => {
                proof {
                    self.lemma_index_unique(node, i as int);
                }
                let dec = after_render(rendered, target_ns, now_ns, s.mode.refresh_mhz);
                let suspend = self.devices[i].suspended;
                let halt = self.devices[i].halted || dec.action == ScheduleAction::Halt;
                self.set_device_flags(i, suspend, halt);
                Some(dec)
            },
        }
    }
}

impl Registry {
    /// Builds the grant for a lease request for ports `req` of device
    /// `node`; `planes[i]` holds the claims tried for the engine of `req[i]`.
    /// The whole request is turned down if a port is not offered for leasing,
    /// or if an engine has no claimed primary plane; otherwise each port comes
    /// with its engine, its first claimed primary plane and its first claimed
    /// cursor plane, if any.
    pub fn grant_lease(&self, node: u64, req: &Vec<u32>, planes: &Vec<EnginePlanes>) -> (r: Result<Vec<LeaseGrant>, LeaseError>)
        requires
            self.wf(),
        ensures
            !self.has_device(node) ==> r == Err::<Vec<LeaseGrant>, LeaseError>(LeaseError::UnknownDevice),
            forall|i: int| 0 <= i < self.devices().len() && (#[trigger] self.devices()[i]).node_id() == node ==> {
                let d = self.devices()[i];
                &&& !lease_grantable(d, req@) ==> r == Err::<Vec<LeaseGrant>, LeaseError>(LeaseError::DesktopConnector)
                &&& lease_grantable(d, req@) && !planes_ok(req@, planes@)
                    ==> r == Err::<Vec<LeaseGrant>, LeaseError>(LeaseError::NoPrimaryPlane)
                &&& lease_grantable(d, req@) && planes_ok(req@, planes@) ==> r is Ok
                &&& r matches Ok(v) ==> v@.len() == req@.len()
                    && forall|j: int| 0 <= j < req@.len() ==> #[trigger] v@[j] == grant_of(d, req@, planes@, j)
            },
    {
        let ports = match self.lease_request(node, req) {
            Err(e) => {
                return Err(e);
            },
            Ok(p) => p,
        };
        let ghost idx = choose|i: int| 0 <= i < self.devices().len() && (#[trigger] self.devices()[i]).node_id() == node;
        proof {
            self.lemma_index_unique(node, idx);
        }
        let ghost d = self.devices()[idx];
        assert(lease_grantable(d, req@));
        let mut v: Vec<LeaseGrant> = Vec::new();
        let mut i: usize = 0;
        while i < req.len()
            invariant
                self.wf(),
                self.has_device(node),
                0 <= idx < self.devices().len(),
                d == self.devices()[idx],
                d.node_id() == node,
                forall|i2: int| 0 <= i2 < self.devices().len() && (#[trigger] self.devices()[i2]).node_id() == node ==> i2 == idx,
                lease_grantable(d, req@),
                i <= req@.len(),
                ports@.len() == req@.len(),
                v@.len() == i,
                forall|j: int| 0 <= j < req@.len() ==> #[trigger] ports@[j] == (req@[j], lease_engine(d, req@[j])),
                forall|j: int| 0 <= j < i ==> (#[trigger] first_claimed(planes@[j].primary@)) is Some,
                i <= planes@.len() || i == 0,
                forall|j: int| 0 <= j < i ==> #[trigger] v@[j] == grant_of(d, req@, planes@, j),
            decreases req.len() - i,
        {
            if i >= planes.len() {
                assert(!planes_ok(req@, planes@));
                return Err(LeaseError::NoPrimaryPlane);
            }
            match lease_planes(&planes[i].primary, &planes[i].cursor) {
                Err(e) => {
                    assert(first_claimed(planes@[i as int].primary@) is None);
                    assert(!planes_ok(req@, planes@));
                    return Err(e);
                },
                Ok((p, c)) => {
                    v.push(LeaseGrant { connector: ports[i].0, crtc: ports[i].1, primary_plane: p, cursor_plane: c });
                },
            }
            i += 1;
        }
        Ok(v)
    }
}

} // verus!