use vstd::prelude::*;
use crate::connector::{ConnectorInfo, ConnectorState, ConnectorView};
use crate::crtc_mapper::{
    assigned, injective, lemma_map_keeps_claims, lemma_map_twice, map_post, maps_to, released, reports_engine,
    CrtcMapper, SimpleCrtcMapper,
};
use crate::scanner::{
    lemma_index_of_unique, lemma_scan_reports, lemma_scan_twice, lemma_snapshot_records, lemma_snapshot_unique,
    records, scan_outcome, snapshot_after, state_of, unique_handles, views, Anomaly, ConnectorScanner,
};

verus! {

/// A port with the engine it is (or was) driven by.
pub type DrmScanItem = (ConnectorInfo, Option<u32>);

pub open spec fn item_views(v: Seq<DrmScanItem>) -> Seq<ConnectorView> {
    v.map_values(|e: DrmScanItem| e.0@)
}

/// The ports that came and went in one scan, each with its engine.
pub struct DrmScanResult {
    pub connected: Vec<DrmScanItem>,
    pub disconnected: Vec<DrmScanItem>,
    pub anomalies: Vec<Anomaly>,
}

pub enum DrmScanEvent {
    Connected { connector: ConnectorInfo, crtc: Option<u32> },
    Disconnected { connector: ConnectorInfo, crtc: Option<u32> },
}

/// Port discovery and engine assignment for one device.
pub struct DrmScanner<M: CrtcMapper = SimpleCrtcMapper> {
    connectors: ConnectorScanner,
    crtc_mapper: M,
}

impl DrmScanner<SimpleCrtcMapper> {
    pub fn new() -> (r: Self)
        ensures
            r.wf(),
            r.snapshot() == Seq::<ConnectorView>::empty(),
            r.assignment() == Seq::<(u32, u32)>::empty(),
    {
        let m = SimpleCrtcMapper::new();
        DrmScanner { connectors: ConnectorScanner::new(), crtc_mapper: m }
    }
}

impl<M: CrtcMapper> DrmScanner<M> {
    pub closed spec fn snapshot(&self) -> Seq<ConnectorView> {
        self.connectors.snapshot()
    }

    /// The mapper.
    pub closed spec fn mapper(&self) -> M {
        self.crtc_mapper
    }

    pub open spec fn assignment(&self) -> Seq<(u32, u32)> {
        self.mapper().assignment()
    }

    /// What the mapper keeps true between calls.
    pub closed spec fn mapper_wf(&self) -> bool {
        self.crtc_mapper.wf()
    }

    pub open spec fn wf(&self) -> bool {
        unique_handles(self.snapshot()) && injective(self.assignment()) && self.mapper_wf()
    }

    pub fn new_with_mapper(crtc_mapper: M) -> (r: Self)
        requires
            crtc_mapper.wf(),
            injective(crtc_mapper.assignment()),
        ensures
            r.wf(),
            r.snapshot() == Seq::<ConnectorView>::empty(),
            r.assignment() == crtc_mapper.assignment(),
    {
        DrmScanner { connectors: ConnectorScanner::new(), crtc_mapper }
    }

    pub fn crtc_mapper(&self) -> (r: &M)
        ensures
            r.assignment() == self.assignment(),
            r.wf() == self.mapper_wf(),
    {
        &self.crtc_mapper
    }

    pub fn crtc_mapper_mut(&mut self) -> (r: &mut M)
        ensures
            r.assignment() == old(self).assignment(),
            r.wf() == old(self).mapper_wf(),
            final(self).snapshot() == old(self).snapshot(),
            final(self).assignment() == final(r).assignment(),
            final(self).mapper_wf() == final(r).wf(),
    {
        &mut self.crtc_mapper
    }

    /// The ports of the snapshot.
    pub fn connectors(&self) -> (r: &Vec<ConnectorInfo>)
        ensures
            views(r@) == self.snapshot(),
    {
        self.connectors.connectors()
    }

    /// The engine port `c` is driven by, if any.
    pub fn crtc_for_connector(&self, c: u32) -> (r: Option<u32>)
        requires
            self.wf(),
        ensures
            reports_engine(self.assignment(), c, r),
    {
        self.crtc_mapper.crtc_for_connector(c)
    }

    /// Each snapshot entry that has an engine, with that engine, in
    /// snapshot order.
    pub fn crtcs(&self) -> (r: Vec<(ConnectorInfo, u32)>)
        requires
            self.wf(),
        ensures
            forall|i: int| 0 <= i < r@.len() ==> maps_to(self.assignment(), (#[trigger] r@[i]).0.handle, r@[i].1),
            forall|i: int| 0 <= i < r@.len() ==> self.snapshot().contains((#[trigger] r@[i]).0@),
            forall|j: int| 0 <= j < self.snapshot().len() && assigned(self.assignment(), #[trigger] self.snapshot()[j].handle)
                ==> exists|i: int| 0 <= i < r@.len() && (#[trigger] r@[i]).0@ == self.snapshot()[j],
            forall|i: int, j: int| 0 <= i < j < r@.len() ==> r@[i].0.handle != r@[j].0.handle,
    {
        let conns = self.connectors.connectors();
        let mut r: Vec<(ConnectorInfo, u32)> = Vec::new();
        let mut j: usize = 0;
        while j < conns.len()
            invariant
                self.wf(),
                views(conns@) == self.snapshot(),
                j <= conns@.len(),
                forall|i: int| 0 <= i < r@.len() ==> maps_to(self.assignment(), (#[trigger] r@[i]).0.handle, r@[i].1),
                forall|i: int| 0 <= i < r@.len() ==> self.snapshot().contains((#[trigger] r@[i]).0@),
                forall|j2: int| 0 <= j2 < j && assigned(self.assignment(), #[trigger] self.snapshot()[j2].handle)
                    ==> exists|i: int| 0 <= i < r@.len() && (#[trigger] r@[i]).0@ == self.snapshot()[j2],
                forall|i: int| 0 <= i < r@.len() ==> exists|j2: int| 0 <= j2 < j && (#[trigger] r@[i]).0@ == #[trigger] self.snapshot()[j2],
                forall|i: int, i2: int| 0 <= i < i2 < r@.len() ==> r@[i].0.handle != r@[i2].0.handle,
            decreases conns.len() - j,
        {
            assert(self.snapshot()[j as int] == conns@[j as int]@);
            let ghost r0 = r@;
            if let Some(k) = self.crtc_mapper.crtc_for_connector(conns[j].handle) {
                let c = conns[j].duplicate();
                r.push((c, k));
                assert(r@[r@.len() - 1].0@ == self.snapshot()[j as int]);
            }
            assert forall|i: int| 0 <= i < r@.len() implies exists|j2: int| 0 <= j2 < j + 1 && (#[trigger] r@[i]).0@ == #[trigger] self.snapshot()[j2] by {
                if i < r0.len() {
                    assert(r@[i] == r0[i]);
                    let j2 = choose|j2: int| 0 <= j2 < j && (#[trigger] r0[i]).0@ == #[trigger] self.snapshot()[j2];
                    assert(r@[i].0@ == self.snapshot()[j2]);
                } else {
                    assert(r@[i].0@ == self.snapshot()[j as int]);
                }
            }
            assert forall|i: int, i2: int| 0 <= i < i2 < r@.len() implies r@[i].0.handle != r@[i2].0.handle by {
                if i2 >= r0.len() {
                    assert(r@[i] == r0[i]);
                    let j2 = choose|j2: int| 0 <= j2 < j && (#[trigger] r0[i]).0@ == #[trigger] self.snapshot()[j2];
                    assert(self.snapshot()[j2].handle != self.snapshot()[j as int].handle);
                } else {
                    assert(r@[i] == r0[i]);
                    assert(r@[i2] == r0[i2]);
                }
            }
            assert forall|j2: int| 0 <= j2 < j + 1 && assigned(self.assignment(), #[trigger] self.snapshot()[j2].handle)
                implies exists|i: int| 0 <= i < r@.len() && (#[trigger] r@[i]).0@ == self.snapshot()[j2] by {
                if j2 < j {
                    let i = choose|i: int| 0 <= i < r0.len() && (#[trigger] r0[i]).0@ == self.snapshot()[j2];
                    assert(r@[i] == r0[i]);
                } else {
                    assert(r@[r@.len() - 1].0@ == self.snapshot()[j as int]);
                }
            }
            j += 1;
        }
        r
    }

    /// Scans the ports just enumerated (`fresh`, in enumeration order) and
    /// maps engines over the device's engines `crtcs`. A disconnected port is
    /// reported with the engine it had; a connected one with the engine it got.
    pub fn scan_connectors(&mut self, crtcs: &Vec<u32>, fresh: Vec<ConnectorInfo>) -> (r: DrmScanResult)
        requires
            old(self).wf(),
        ensures
            final(self).wf(),
            final(self).snapshot() == snapshot_after(old(self).snapshot(), views(fresh@)),
            map_post(old(self).assignment(), final(self).assignment(), crtcs@, final(self).snapshot()),
            final(self).assignment() == old(self).mapper().chosen(crtcs@, final(self).snapshot()),
            item_views(r.connected@) == scan_outcome(old(self).snapshot(), views(fresh@)).connected,
            item_views(r.disconnected@) == scan_outcome(old(self).snapshot(), views(fresh@)).disconnected,
            r.anomalies@ == scan_outcome(old(self).snapshot(), views(fresh@)).anomalies,
            forall|i: int| 0 <= i < r.connected@.len() ==>
                reports_engine(final(self).assignment(), (#[trigger] r.connected@[i]).0.handle, r.connected@[i].1),
            forall|i: int| 0 <= i < r.disconnected@.len() ==>
                reports_engine(old(self).assignment(), (#[trigger] r.disconnected@[i]).0.handle, r.disconnected@[i].1),
    {
        let scan = self.connectors.scan(fresh);
        let crate::scanner::ConnectorScanResult { connected, disconnected, anomalies } = scan;
        let ghost dv = views(disconnected@);
        let mut removed: Vec<DrmScanItem> = Vec::new();
        let mut i: usize = 0;
        let mut disconnected = disconnected;
        let ghost d0 = disconnected@;
        while i < disconnected.len()
            invariant
                self.crtc_mapper.wf(),
                injective(self.crtc_mapper.assignment()),
                d0 == disconnected@,
                i <= disconnected@.len(),
                removed@.len() == i,
                item_views(removed@) == views(disconnected@).take(i as int),
                forall|x: int| 0 <= x < removed@.len() ==>
                    reports_engine(self.crtc_mapper.assignment(), (#[trigger] removed@[x]).0.handle, removed@[x].1),
            decreases disconnected.len() - i,
        {
            let c = disconnected[i].duplicate();
            let k = self.crtc_mapper.crtc_for_connector(c.handle);
            removed.push((c, k));
            assert(views(disconnected@)[i as int] == disconnected@[i as int]@);
            assert(item_views(removed@)[i as int] == removed@[i as int].0@);
            assert(item_views(removed@) =~= views(disconnected@).take(i as int + 1));
            i += 1;
        }
        assert(views(disconnected@).take(i as int) =~= views(disconnected@));
        self.crtc_mapper.map(crtcs, self.connectors.connectors());
        let mut added: Vec<DrmScanItem> = Vec::new();
        let mut j: usize = 0;
        while j < connected.len()
            invariant
                self.crtc_mapper.wf(),
                injective(self.crtc_mapper.assignment()),
                j <= connected@.len(),
                added@.len() == j,
                item_views(added@) == views(connected@).take(j as int),
                forall|x: int| 0 <= x < added@.len() ==>
                    reports_engine(self.crtc_mapper.assignment(), (#[trigger] added@[x]).0.handle, added@[x].1),
            decreases connected.len() - j,
        {
            let c = connected[j].duplicate();
            let k = self.crtc_mapper.crtc_for_connector(c.handle);
            added.push((c, k));
            assert(views(connected@)[j as int] == connected@[j as int]@);
            assert(item_views(added@)[j as int] == added@[j as int].0@);
            assert(item_views(added@) =~= views(connected@).take(j as int + 1));
            j += 1;
        }
        assert(views(connected@).take(j as int) =~= views(connected@));
        DrmScanResult { connected: added, disconnected: removed, anomalies }
    }
}

/// A scan event as (is a connection, port, engine).
pub type ScanEventView = (bool, ConnectorView, Option<u32>);

pub open spec fn event_view(e: DrmScanEvent) -> ScanEventView {
    match e {
        DrmScanEvent::Connected { connector, crtc } => (true, connector@, crtc),
        DrmScanEvent::Disconnected { connector, crtc } => (false, connector@, crtc),
    }
}

pub open spec fn tagged(v: Seq<DrmScanItem>, connected: bool) -> Seq<ScanEventView> {
    v.map_values(|e: DrmScanItem| (connected, e.0@, e.1))
}

impl DrmScanResult {
    /// The events of the scan: disconnections first, then connections.
    pub open spec fn event_views(&self) -> Seq<ScanEventView> {
        tagged(self.disconnected@, false) + tagged(self.connected@, true)
    }

    /// The events of the scan: disconnections first, then connections.
    pub fn iter(&self) -> (r: Vec<DrmScanEvent>)
        ensures
            r@.map_values(|e: DrmScanEvent| event_view(e)) == self.event_views(),
            r@.len() == self.disconnected@.len() + self.connected@.len(),
            forall|i: int| 0 <= i < self.disconnected@.len() ==>
                (#[trigger] r@[i] matches DrmScanEvent::Disconnected { connector, crtc }
                    && connector@ == self.disconnected@[i].0@ && crtc == self.disconnected@[i].1),
            forall|i: int| self.disconnected@.len() <= i < r@.len() ==>
                (#[trigger] r@[i] matches DrmScanEvent::Connected { connector, crtc }
                    && connector@ == self.connected@[i - self.disconnected@.len()].0@
                    && crtc == self.connected@[i - self.disconnected@.len()].1),
    {
        let mut r: Vec<DrmScanEvent> = Vec::new();
        let mut i: usize = 0;
        while i < self.disconnected.len()
            invariant
                i <= self.disconnected@.len(),
                r@.len() == i,
                forall|k: int| 0 <= k < i ==>
                    (#[trigger] r@[k] matches DrmScanEvent::Disconnected { connector, crtc }
                        && connector@ == self.disconnected@[k].0@ && crtc == self.disconnected@[k].1),
            decreases self.disconnected.len() - i,
        {
            r.push(DrmScanEvent::Disconnected {
                connector: self.disconnected[i].0.duplicate(),
                crtc: self.disconnected[i].1,
            });
            i += 1;
        }
        let mut j: usize = 0;
        while j < self.connected.len()
            invariant
                j <= self.connected@.len(),
                r@.len() == self.disconnected@.len() + j,
                forall|k: int| 0 <= k < self.disconnected@.len() ==>
                    (#[trigger] r@[k] matches DrmScanEvent::Disconnected { connector, crtc }
                        && connector@ == self.disconnected@[k].0@ && crtc == self.disconnected@[k].1),
                forall|k: int| self.disconnected@.len() <= k < r@.len() ==>
                    (#[trigger] r@[k] matches DrmScanEvent::Connected { connector, crtc }
                        && connector@ == self.connected@[k - self.disconnected@.len()].0@
                        && crtc == self.connected@[k - self.disconnected@.len()].1),
            decreases self.connected.len() - j,
        {
            r.push(DrmScanEvent::Connected {
                connector: self.connected[j].0.duplicate(),
                crtc: self.connected[j].1,
            });
            j += 1;
        }
        proof {
            let dl = self.disconnected@.len();
            assert forall|k: int| 0 <= k < r@.len() implies
                event_view(#[trigger] r@[k]) == self.event_views()[k] by {
                if k < dl {
                    assert(self.event_views()[k] == tagged(self.disconnected@, false)[k]);
                } else {
                    assert(self.event_views()[k] == tagged(self.connected@, true)[k - dl]);
                }
            }
            assert(r@.map_values(|e: DrmScanEvent| event_view(e)) =~= self.event_views());
        }
        r
    }
}

/// Scanning twice with unchanged ports (distinct handles) and engines
/// reports no connection or disconnection the second time, and leaves the
/// snapshot and every engine claim as the first scan left them.
pub proof fn lemma_rescan_idempotent(
    snap: Seq<ConnectorView>,
    fresh: Seq<ConnectorView>,
    crtcs: Seq<u32>,
    s0: Seq<(u32, u32)>,
    s1: Seq<(u32, u32)>,
    s2: Seq<(u32, u32)>,
)
    requires
        unique_handles(snap),
        unique_handles(fresh),
        map_post(s0, s1, crtcs, snapshot_after(snap, fresh)),
        map_post(s1, s2, crtcs, snapshot_after(snapshot_after(snap, fresh), fresh)),
    ensures
        scan_outcome(snapshot_after(snap, fresh), fresh).connected.len() == 0,
        scan_outcome(snapshot_after(snap, fresh), fresh).disconnected.len() == 0,
        snapshot_after(snapshot_after(snap, fresh), fresh) == snapshot_after(snap, fresh),
        forall|c: u32, k: u32| #[trigger] maps_to(s2, c, k) <==> maps_to(s1, c, k),
{
    lemma_scan_twice(snap, fresh);
    lemma_map_twice(s0, s1, s2, crtcs, snapshot_after(snap, fresh));
}

/// A scan in which a port that had an engine stays connected keeps that
/// engine for it, gives no other port that engine, and does not report the
/// port as newly connected (enumerated handles distinct).
pub proof fn lemma_scan_keeps_engine(
    snap: Seq<ConnectorView>,
    fresh: Seq<ConnectorView>,
    crtcs: Seq<u32>,
    a0: Seq<(u32, u32)>,
    a1: Seq<(u32, u32)>,
    a: u32,
    k: u32,
    b: u32,
)
    requires
        unique_handles(snap),
        unique_handles(fresh),
        injective(a0),
        map_post(a0, a1, crtcs, snapshot_after(snap, fresh)),
        maps_to(a0, a, k),
        state_of(snap, a) == Some(ConnectorState::Connected),
        exists|i: int| 0 <= i < fresh.len() && fresh[i].handle == a && fresh[i].state == ConnectorState::Connected,
        b != a,
    ensures
        maps_to(a1, a, k),
        forall|kb: u32| #[trigger] maps_to(a1, b, kb) ==> kb != k,
        forall|c: ConnectorView| #[trigger] scan_outcome(snap, fresh).connected.contains(c) ==> c.handle != a,
{
    let t = snapshot_after(snap, fresh);
    let i = choose|i: int| 0 <= i < fresh.len() && fresh[i].handle == a && fresh[i].state == ConnectorState::Connected;
    lemma_snapshot_unique(snap, fresh);
    lemma_snapshot_records(snap, fresh);
    assert(records(t, fresh[i]));
    assert(!released(t, a)) by {
        if released(t, a) {
            let x = choose|x: int| 0 <= x < t.len() && #[trigger] t[x].handle == a && t[x].state != ConnectorState::Connected;
            lemma_index_of_unique(t, x);
        }
    }
    assert forall|kb: u32| #[trigger] maps_to(a1, b, kb) implies kb != k by {
        lemma_map_keeps_claims(a0, a1, crtcs, t, a, k, b, kb);
    }
    assert(maps_to(a1, a, k));
    lemma_scan_reports(snap, fresh);
}

} // verus!