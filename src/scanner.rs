use vstd::prelude::*;
use crate::connector::{ConnectorInfo, ConnectorState, ConnectorView};

verus! {

/// How a port's state changed between two scans.
#[derive(Clone, Copy, Debug, PartialEq, Eq, Structural)]
pub enum Transition {
    /// `(Disconnected | Unknown) -> Connected`, or a port first seen connected.
    Connect,
    /// `Connected -> Disconnected`.
    Disconnect,
    /// A port first seen not connected: nothing to report.
    FirstSeen,
    /// Any other pairing of a recorded state with a new one, a kept state
    /// included: no event is emitted, but the port is reported.
    Anomaly,
}

pub open spec fn transition_spec(old: Option<ConnectorState>, new: ConnectorState) -> Transition {
    match (old, new) {
        (None, ConnectorState::Connected) => Transition::Connect,
        (None, _) => Transition::FirstSeen,
        (Some(ConnectorState::Disconnected), ConnectorState::Connected) => Transition::Connect,
        (Some(ConnectorState::Unknown), ConnectorState::Connected) => Transition::Connect,
        (Some(ConnectorState::Connected), ConnectorState::Disconnected) => Transition::Disconnect,
        _ => Transition::Anomaly,
    }
}

/// The only transitions reported as events are `(Disconnected | Unknown)
/// -> Connected` (or a first sighting as connected) and `Connected ->
/// Disconnected`; every other pairing of a recorded state with a new one,
/// a kept state included, is an anomaly.
pub proof fn lemma_transitions(old: Option<ConnectorState>, new: ConnectorState)
    ensures
        transition_spec(old, new) == Transition::Connect <==> new == ConnectorState::Connected
            && old != Some(ConnectorState::Connected),
        transition_spec(old, new) == Transition::Disconnect <==> old == Some(ConnectorState::Connected)
            && new == ConnectorState::Disconnected,
        transition_spec(old, new) == Transition::FirstSeen <==> old is None && new != ConnectorState::Connected,
        transition_spec(old, new) == Transition::Anomaly <==> old is Some
            && !(new == ConnectorState::Connected && old != Some(ConnectorState::Connected))
            && !(old == Some(ConnectorState::Connected) && new == ConnectorState::Disconnected),
{
}

/// Classifies one port's change of state; `old` is `None` for a port not seen before.
pub fn classify(old: Option<ConnectorState>, new: ConnectorState) -> (r: Transition)
    ensures
        r == transition_spec(old, new),
{
    match (old, new) {
        (None, ConnectorState::Connected) => Transition::Connect,
        (None, _) => Transition::FirstSeen,
        (Some(ConnectorState::Disconnected), ConnectorState::Connected) => Transition::Connect,
        (Some(ConnectorState::Unknown), ConnectorState::Connected) => Transition::Connect,
        (Some(ConnectorState::Connected), ConnectorState::Disconnected) => Transition::Disconnect,
        _ => Transition::Anomaly,
    }
}

pub open spec fn unique_handles(s: Seq<ConnectorView>) -> bool {
    forall|i: int, j: int| 0 <= i < j < s.len() ==> s[i].handle != s[j].handle
}

pub open spec fn has_handle(s: Seq<ConnectorView>, h: u32) -> bool {
    exists|i: int| 0 <= i < s.len() && s[i].handle == h
}

pub open spec fn index_of(s: Seq<ConnectorView>, h: u32) -> int {
    choose|i: int| 0 <= i < s.len() && s[i].handle == h
}

/// The recorded state of port `h`, if the snapshot has it.
pub open spec fn state_of(s: Seq<ConnectorView>, h: u32) -> Option<ConnectorState> {
    if has_handle(s, h) {
        Some(s[index_of(s, h)].state)
    } else {
        None
    }
}

/// The snapshot after recording `c`: its entry is replaced, or appended.
pub open spec fn upsert(s: Seq<ConnectorView>, c: ConnectorView) -> Seq<ConnectorView> {
    if has_handle(s, c.handle) {
        s.update(index_of(s, c.handle), c)
    } else {
        s.push(c)
    }
}

/// The snapshot after recording each entry of `fresh` in turn.
pub open spec fn snapshot_after(s: Seq<ConnectorView>, fresh: Seq<ConnectorView>) -> Seq<ConnectorView>
    decreases fresh.len(),
{
    if fresh.len() == 0 {
        s
    } else {
        upsert(snapshot_after(s, fresh.drop_last()), fresh.last())
    }
}

/// A port whose change of state was an anomaly, with both states.
#[derive(Clone, Copy, Debug, PartialEq, Eq, Structural)]
pub struct Anomaly {
    pub handle: u32,
    pub before: ConnectorState,
    pub after: ConnectorState,
}

/// What a scan reports.
pub struct ScanOutcome {
    pub connected: Seq<ConnectorView>,
    pub disconnected: Seq<ConnectorView>,
    pub anomalies: Seq<Anomaly>,
}

/// The events of a scan of `fresh` against snapshot `s`: each port is
/// compared with the state recorded before it, in enumeration order.
pub open spec fn scan_outcome(s: Seq<ConnectorView>, fresh: Seq<ConnectorView>) -> ScanOutcome
    decreases fresh.len(),
{
    if fresh.len() == 0 {
        ScanOutcome { connected: seq![], disconnected: seq![], anomalies: seq![] }
    } else {
        let prev = scan_outcome(s, fresh.drop_last());
        let c = fresh.last();
        let t = transition_spec(state_of(snapshot_after(s, fresh.drop_last()), c.handle), c.state);
        ScanOutcome {
            connected: if t == Transition::Connect { prev.connected.push(c) } else { prev.connected },
            disconnected: if t == Transition::Disconnect {
                prev.disconnected.push(c)
            } else {
                prev.disconnected
            },
            anomalies: if t == Transition::Anomaly {
                prev.anomalies.push(
                    Anomaly {
                        handle: c.handle,
                        before: state_of(snapshot_after(s, fresh.drop_last()), c.handle)->0,
                        after: c.state,
                    },
                )
            } else {
                prev.anomalies
            },
        }
    }
}

/// `t` records port `c` exactly as given.
pub open spec fn records(t: Seq<ConnectorView>, c: ConnectorView) -> bool {
    has_handle(t, c.handle) && t[index_of(t, c.handle)] == c
}

pub proof fn lemma_index_of_unique(t: Seq<ConnectorView>, x: int)
    requires
        unique_handles(t),
        0 <= x < t.len(),
    ensures
        has_handle(t, t[x].handle),
        index_of(t, t[x].handle) == x,
{
    assert(t[x].handle == t[x].handle);
}

proof fn lemma_upsert(t: Seq<ConnectorView>, c: ConnectorView)
    requires
        unique_handles(t),
    ensures
        unique_handles(upsert(t, c)),
        records(upsert(t, c), c),
        forall|d: ConnectorView| d.handle != c.handle && #[trigger] records(t, d) ==> records(upsert(t, c), d),
        forall|h: u32| h != c.handle ==> #[trigger] state_of(upsert(t, c), h) == state_of(t, h),
{
    let u = upsert(t, c);
    let idx = if has_handle(t, c.handle) {
        let i = index_of(t, c.handle);
        assert(u =~= t.update(i, c));
        i
    } else {
        assert(u =~= t.push(c));
        t.len() as int
    };
    assert(u[idx] == c);
    assert(unique_handles(u));
    lemma_index_of_unique(u, idx);
    assert forall|d: ConnectorView| d.handle != c.handle && #[trigger] records(t, d) implies records(u, d) by {
        let j = index_of(t, d.handle);
        assert(u[j] == t[j]);
        lemma_index_of_unique(u, j);
    }
    assert forall|h: u32| h != c.handle implies #[trigger] state_of(u, h) == state_of(t, h) by {
        if has_handle(t, h) {
            let j = index_of(t, h);
            assert(u[j] == t[j]);
            lemma_index_of_unique(u, j);
        }
        if has_handle(u, h) {
            let j = index_of(u, h);
            if has_handle(t, c.handle) {
                assert(t[j] == u[j]);
            } else {
                assert(j < t.len());
                assert(t[j] == u[j]);
            }
        }
    }
}

pub proof fn lemma_snapshot_unique(s: Seq<ConnectorView>, f: Seq<ConnectorView>)
    requires
        unique_handles(s),
    ensures
        unique_handles(snapshot_after(s, f)),
    decreases f.len(),
{
    if f.len() > 0 {
        lemma_snapshot_unique(s, f.drop_last());
        lemma_upsert(snapshot_after(s, f.drop_last()), f.last());
    }
}

/// After a scan of ports with distinct handles, the snapshot records each of them.
pub proof fn lemma_snapshot_records(s: Seq<ConnectorView>, f: Seq<ConnectorView>)
    requires
        unique_handles(s),
        unique_handles(f),
    ensures
        forall|i: int| 0 <= i < f.len() ==> records(snapshot_after(s, f), #[trigger] f[i]),
    decreases f.len(),
{
    if f.len() > 0 {
        let p = f.drop_last();
        assert(unique_handles(p));
        lemma_snapshot_records(s, p);
        lemma_snapshot_unique(s, p);
        lemma_upsert(snapshot_after(s, p), f.last());
        assert forall|i: int| 0 <= i < f.len() implies records(snapshot_after(s, f), #[trigger] f[i]) by {
            if i < f.len() - 1 {
                assert(f[i] == p[i]);
            }
        }
    }
}

/// Rescanning ports a snapshot already records leaves it unchanged and
/// reports no connection or disconnection.
proof fn lemma_rescan_quiet(t: Seq<ConnectorView>, f: Seq<ConnectorView>)
    requires
        unique_handles(t),
        forall|i: int| 0 <= i < f.len() ==> records(t, #[trigger] f[i]),
    ensures
        snapshot_after(t, f) == t,
        scan_outcome(t, f).connected.len() == 0,
        scan_outcome(t, f).disconnected.len() == 0,
    decreases f.len(),
{
    if f.len() > 0 {
        let p = f.drop_last();
        assert forall|i: int| 0 <= i < p.len() implies records(t, #[trigger] p[i]) by {
            assert(p[i] == f[i]);
        }
        lemma_rescan_quiet(t, p);
        let c = f.last();
        assert(records(t, f[f.len() - 1]));
        assert(t.update(index_of(t, c.handle), c) =~= t);
        assert(state_of(t, c.handle) == Some(c.state));
    }
}

/// Scanning the same ports twice, with distinct handles, reports no
/// connection or disconnection the second time and leaves the snapshot as
/// the first scan left it.
pub proof fn lemma_scan_twice(s: Seq<ConnectorView>, f: Seq<ConnectorView>)
    requires
        unique_handles(s),
        unique_handles(f),
    ensures
        snapshot_after(snapshot_after(s, f), f) == snapshot_after(s, f),
        scan_outcome(snapshot_after(s, f), f).connected.len() == 0,
        scan_outcome(snapshot_after(s, f), f).disconnected.len() == 0,
{
    lemma_snapshot_unique(s, f);
    lemma_snapshot_records(s, f);
    lemma_rescan_quiet(snapshot_after(s, f), f);
}

/// A snapshot keeps the state of a port that a scan did not enumerate.
proof fn lemma_state_kept(s: Seq<ConnectorView>, p: Seq<ConnectorView>, h: u32)
    requires
        unique_handles(s),
        forall|i: int| 0 <= i < p.len() ==> (#[trigger] p[i]).handle != h,
    ensures
        state_of(snapshot_after(s, p), h) == state_of(s, h),
    decreases p.len(),
{
    if p.len() > 0 {
        let q = p.drop_last();
        assert forall|i: int| 0 <= i < q.len() implies (#[trigger] q[i]).handle != h by {
            assert(q[i] == p[i]);
        }
        lemma_state_kept(s, q, h);
        lemma_snapshot_unique(s, q);
        lemma_upsert(snapshot_after(s, q), p.last());
        assert(p[p.len() - 1].handle != h);
    }
}

/// Over a whole scan of ports with distinct handles: a port is reported
/// connected exactly when it was enumerated going from not connected (or
/// unseen) to connected, disconnected exactly when it went from connected
/// to disconnected, and as an anomaly, with both states, exactly when it
/// was recorded before and its pairing is neither of these two changes (a
/// kept state included); no other port is reported.
pub proof fn lemma_scan_reports(s: Seq<ConnectorView>, f: Seq<ConnectorView>)
    requires
        unique_handles(s),
        unique_handles(f),
    ensures
        forall|c: ConnectorView| #[trigger] scan_outcome(s, f).connected.contains(c) <==> f.contains(c)
            && transition_spec(state_of(s, c.handle), c.state) == Transition::Connect,
        forall|c: ConnectorView| #[trigger] scan_outcome(s, f).disconnected.contains(c) <==> f.contains(c)
            && transition_spec(state_of(s, c.handle), c.state) == Transition::Disconnect,
        forall|a: Anomaly| #[trigger] scan_outcome(s, f).anomalies.contains(a) <==> exists|i: int| 0 <= i < f.len()
            && f[i].handle == a.handle && f[i].state == a.after && state_of(s, a.handle) == Some(a.before)
            && transition_spec(state_of(s, a.handle), a.after) == Transition::Anomaly,
    decreases f.len(),
{
    if f.len() > 0 {
        let p = f.drop_last();
        let c = f.last();
        assert(unique_handles(p));
        lemma_scan_reports(s, p);
        assert forall|i: int| 0 <= i < p.len() implies (#[trigger] p[i]).handle != c.handle by {
            assert(p[i] == f[i]);
        }
        lemma_state_kept(s, p, c.handle);
        let o = scan_outcome(s, f);
        let o0 = scan_outcome(s, p);
        assert forall|d: ConnectorView| f.contains(d) <==> p.contains(d) || d == c by {
            if f.contains(d) {
                let i = choose|i: int| 0 <= i < f.len() && f[i] == d;
                if i < f.len() - 1 { assert(p[i] == d); }
            }
            if p.contains(d) {
                let i = choose|i: int| 0 <= i < p.len() && p[i] == d;
                assert(f[i] == d);
            }
            if d == c { assert(f[f.len() - 1] == d); }
        }
        assert forall|c2: ConnectorView| #[trigger] o.connected.contains(c2) <==> f.contains(c2)
            && transition_spec(state_of(s, c2.handle), c2.state) == Transition::Connect by {
            if o.connected.contains(c2) && c2 != c {
                let x = choose|x: int| 0 <= x < o.connected.len() && o.connected[x] == c2;
                if x < o0.connected.len() { assert(o0.connected[x] == c2); assert(o0.connected.contains(c2)); }
            }
            if o0.connected.contains(c2) {
                let x = choose|x: int| 0 <= x < o0.connected.len() && o0.connected[x] == c2;
                assert(o.connected[x] == c2);
            }
            if c2 == c && transition_spec(state_of(s, c2.handle), c2.state) == Transition::Connect {
                assert(o.connected[o.connected.len() - 1] == c);
            }
            if p.contains(c2) && c2 != c {
                let i = choose|i: int| 0 <= i < p.len() && p[i] == c2;
                assert(p[i].handle != c.handle);
            }
        }
        assert forall|c2: ConnectorView| #[trigger] o.disconnected.contains(c2) <==> f.contains(c2)
            && transition_spec(state_of(s, c2.handle), c2.state) == Transition::Disconnect by {
            if o.disconnected.contains(c2) && c2 != c {
                let x = choose|x: int| 0 <= x < o.disconnected.len() && o.disconnected[x] == c2;
                if x < o0.disconnected.len() { assert(o0.disconnected[x] == c2); assert(o0.disconnected.contains(c2)); }
            }
            if o0.disconnected.contains(c2) {
                let x = choose|x: int| 0 <= x < o0.disconnected.len() && o0.disconnected[x] == c2;
                assert(o.disconnected[x] == c2);
            }
            if c2 == c && transition_spec(state_of(s, c2.handle), c2.state) == Transition::Disconnect {
                assert(o.disconnected[o.disconnected.len() - 1] == c);
            }
            if p.contains(c2) && c2 != c {
                let i = choose|i: int| 0 <= i < p.len() && p[i] == c2;
                assert(p[i].handle != c.handle);
            }
        }
        let ac = Anomaly { handle: c.handle, before: state_of(s, c.handle)->0, after: c.state };
        assert forall|a: Anomaly| #[trigger] o.anomalies.contains(a) <==> exists|i: int| 0 <= i < f.len()
            && f[i].handle == a.handle && f[i].state == a.after && state_of(s, a.handle) == Some(a.before)
            && transition_spec(state_of(s, a.handle), a.after) == Transition::Anomaly by {
            let tc = transition_spec(state_of(s, c.handle), c.state);
            if o.anomalies.contains(a) {
                let x = choose|x: int| 0 <= x < o.anomalies.len() && o.anomalies[x] == a;
                if x < o0.anomalies.len() {
                    assert(o0.anomalies[x] == a);
                    assert(o0.anomalies.contains(a));
                    let i = choose|i: int| 0 <= i < p.len()
                        && p[i].handle == a.handle && p[i].state == a.after && state_of(s, a.handle) == Some(a.before)
                        && transition_spec(state_of(s, a.handle), a.after) == Transition::Anomaly;
                    assert(f[i] == p[i]);
                } else {
                    assert(a == ac);
                    assert(f[f.len() - 1] == c);
                }
            }
            if exists|i: int| 0 <= i < f.len()
                && f[i].handle == a.handle && f[i].state == a.after && state_of(s, a.handle) == Some(a.before)
                && transition_spec(state_of(s, a.handle), a.after) == Transition::Anomaly {
                let i = choose|i: int| 0 <= i < f.len()
                    && f[i].handle == a.handle && f[i].state == a.after && state_of(s, a.handle) == Some(a.before)
                    && transition_spec(state_of(s, a.handle), a.after) == Transition::Anomaly;
                if i < f.len() - 1 {
                    assert(p[i] == f[i]);
                    assert(o0.anomalies.contains(a));
                    let x = choose|x: int| 0 <= x < o0.anomalies.len() && o0.anomalies[x] == a;
                    assert(o.anomalies[x] == a);
                } else {
                    assert(a == ac);
                    assert(o.anomalies[o.anomalies.len() - 1] == ac);
                }
            }
        }
    }
}

pub open spec fn views(v: Seq<ConnectorInfo>) -> Seq<ConnectorView> {
    v.map_values(|c: ConnectorInfo| c@)
}

/// Keeps the last known state of every port and diffs each new scan against it.
pub struct ConnectorScanner {
    connectors: Vec<ConnectorInfo>,
}

/// The ports that came and went in one scan, and those whose change was an anomaly.
pub struct ConnectorScanResult {
    pub connected: Vec<ConnectorInfo>,
    pub disconnected: Vec<ConnectorInfo>,
    pub anomalies: Vec<Anomaly>,
}

pub enum ConnectorScanEvent {
    Connected(ConnectorInfo),
    Disconnected(ConnectorInfo),
}

impl ConnectorScanner {
    /// The snapshot, in the order ports were first seen.
    pub closed spec fn snapshot(&self) -> Seq<ConnectorView> {
        views(self.connectors@)
    }

    pub open spec fn wf(&self) -> bool {
        unique_handles(self.snapshot())
    }

    pub fn new() -> (r: Self)
        ensures
            r.wf(),
            r.snapshot() == Seq::<ConnectorView>::empty(),
    {
        let r = ConnectorScanner { connectors: Vec::new() };
        assert(r.snapshot() =~= Seq::<ConnectorView>::empty());
        r
    }

    /// The ports of the snapshot.
    pub fn connectors(&self) -> (r: &Vec<ConnectorInfo>)
        ensures
            views(r@) == self.snapshot(),
    {
        &self.connectors
    }

    fn position(&self, h: u32) -> (r: Option<usize>)
        requires
            self.wf(),
        ensures
            r is None ==> !has_handle(self.snapshot(), h),
            r matches Some(i) ==> i < self.snapshot().len() && self.snapshot()[i as int].handle == h
                && index_of(self.snapshot(), h) == i,
    {
        let mut i: usize = 0;
        while i < self.connectors.len()
            invariant
                i <= self.connectors.len(),
                self.wf(),
                forall|j: int| 0 <= j < i ==> self.snapshot()[j].handle != h,
            decreases self.connectors.len() - i,
        {
            if self.connectors[i].handle == h {
                proof {
                    assert(self.snapshot()[i as int].handle == h);
                    assert(has_handle(self.snapshot(), h));
                    let k = index_of(self.snapshot(), h);
                    assert(k == i);
                }
                return Some(i);
            }
            i += 1;
        }
        None
    }

    /// Records `c`, returning the state recorded for its port before.
    fn record(&mut self, c: ConnectorInfo) -> (r: Option<ConnectorState>)
        requires
            old(self).wf(),
        ensures
            final(self).wf(),
            r == state_of(old(self).snapshot(), c.handle),
            final(self).snapshot() == upsert(old(self).snapshot(), c@),
    {
        let ghost s = self.snapshot();
        let h = c.handle;
        match self.position(h) {
            Some(i) => {
                let prev = self.connectors[i].state;
                let ghost cv = c@;
                self.connectors.set(i, c);
                assert(self.snapshot() =~= s.update(i as int, cv));
                Some(prev)
            },
            None => {
                let ghost cv = c@;
                self.connectors.push(c);
                assert(self.snapshot() =~= s.push(cv));
                None
            },
        }
    }

    /// Diffs the ports just enumerated against the snapshot, in enumeration
    /// order, and records each of them.
    pub fn scan(&mut self, fresh: Vec<ConnectorInfo>) -> (r: ConnectorScanResult)
        requires
            old(self).wf(),
        ensures
            final(self).wf(),
            final(self).snapshot() == snapshot_after(old(self).snapshot(), views(fresh@)),
            views(r.connected@) == scan_outcome(old(self).snapshot(), views(fresh@)).connected,
            views(r.disconnected@) == scan_outcome(old(self).snapshot(), views(fresh@)).disconnected,
            r.anomalies@ == scan_outcome(old(self).snapshot(), views(fresh@)).anomalies,
    {
        let ghost s0 = self.snapshot();
        let ghost f = views(fresh@);
        let mut connected: Vec<ConnectorInfo> = Vec::new();
        let mut disconnected: Vec<ConnectorInfo> = Vec::new();
        let mut anomalies: Vec<Anomaly> = Vec::new();
        let mut i: usize = 0;
        while i < fresh.len()
            invariant
                i <= fresh.len(),
                f == views(fresh@),
                self.wf(),
                self.snapshot() == snapshot_after(s0, f.take(i as int)),
                views(connected@) == scan_outcome(s0, f.take(i as int)).connected,
                views(disconnected@) == scan_outcome(s0, f.take(i as int)).disconnected,
                anomalies@ == scan_outcome(s0, f.take(i as int)).anomalies,
            decreases fresh.len() - i,
        {
            let c = fresh[i].duplicate();
            let ghost cv = c@;
            let ghost before = self.snapshot();
            assert(f.take(i as int + 1).drop_last() =~= f.take(i as int));
            assert(f.take(i as int + 1).last() == cv);
            let state = c.state;
            let h = c.handle;
            let prev = self.record(c);
            let t = classify(prev, state);
            match t {
                Transition::Connect => {
                    let e = fresh[i].duplicate();
                    connected.push(e);
                    assert(views(connected@) =~= scan_outcome(s0, f.take(i as int + 1)).connected);
                },
                Transition::Disconnect => {
                    let e = fresh[i].duplicate();
                    disconnected.push(e);
                    assert(views(disconnected@) =~= scan_outcome(s0, f.take(i as int + 1)).disconnected);
                },
                Transition::Anomaly => {
                    if let Some(b) = prev {
                        anomalies.push(Anomaly { handle: h, before: b, after: state });
                    }
                },
                Transition::FirstSeen => {},
            }
            i += 1;
        }
        assert(f.take(fresh.len() as int) =~= f);
        ConnectorScanResult { connected, disconnected, anomalies }
    }
}

impl ConnectorScanResult {
    /// The events of the scan: disconnections first, then connections.
    pub fn iter(&self) -> (r: Vec<ConnectorScanEvent>)
        ensures
            r@.len() == self.disconnected@.len() + self.connected@.len(),
            forall|i: int| 0 <= i < self.disconnected@.len() ==>
                (#[trigger] r@[i] matches ConnectorScanEvent::Disconnected(c) && c@ == self.disconnected@[i]@),
            forall|i: int| self.disconnected@.len() <= i < r@.len() ==>
                (#[trigger] r@[i] matches ConnectorScanEvent::Connected(c)
                    && c@ == self.connected@[i - self.disconnected@.len()]@),
    {
        let mut r: Vec<ConnectorScanEvent> = Vec::new();
        let mut i: usize = 0;
        while i < self.disconnected.len()
            invariant
                i <= self.disconnected@.len(),
                r@.len() == i,
                forall|k: int| 0 <= k < i ==>
                    (#[trigger] r@[k] matches ConnectorScanEvent::Disconnected(c) && c@ == self.disconnected@[k]@),
            decreases self.disconnected.len() - i,
        {
            r.push(ConnectorScanEvent::Disconnected(self.disconnected[i].duplicate()));
            i += 1;
        }
        let mut j: usize = 0;
        while j < self.connected.len()
            invariant
                j <= self.connected@.len(),
                r@.len() == self.disconnected@.len() + j,
                forall|k: int| 0 <= k < self.disconnected@.len() ==>
                    (#[trigger] r@[k] matches ConnectorScanEvent::Disconnected(c) && c@ == self.disconnected@[k]@),
                forall|k: int| self.disconnected@.len() <= k < r@.len() ==>
                    (#[trigger] r@[k] matches ConnectorScanEvent::Connected(c)
                        && c@ == self.connected@[k - self.disconnected@.len()]@),
            decreases self.connected.len() - j,
        {
            r.push(ConnectorScanEvent::Connected(self.connected[j].duplicate()));
            j += 1;
        }
        r
    }
}

} // verus!
