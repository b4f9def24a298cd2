use vstd::prelude::*;
use crate::connector::{ConnectorInfo, ConnectorState, ConnectorView};
use crate::scanner::views;

verus! {

/// Whether bit `j` of an encoder's engine mask is set.
pub open spec fn mask_bit(mask: u32, j: int) -> bool {
    0 <= j < 32 && (mask >> (j as u32)) & 1u32 == 1u32
}

/// Engine `k` is one of the device's engines `crtcs` that some encoder of
/// the port (`encoders`, one engine mask each) can drive.
pub open spec fn compatible(crtcs: Seq<u32>, encoders: Seq<u32>, k: u32) -> bool {
    exists|e: int, j: int|
        0 <= e < encoders.len() && 0 <= j < crtcs.len() && #[trigger] mask_bit(encoders[e], j)
            && #[trigger] crtcs[j] == k
}

/// The first of the device's engines, from the `j`-th on, that `mask`
/// allows and that `s` leaves free.
pub open spec fn first_free_in_mask(crtcs: Seq<u32>, mask: u32, s: Seq<(u32, u32)>, j: int) -> Option<u32>
    decreases crtcs.len() - j,
{
    if j < 0 || j >= crtcs.len() || j >= 32 {
        None
    } else if mask_bit(mask, j) && !claimed(s, crtcs[j]) {
        Some(crtcs[j])
    } else {
        first_free_in_mask(crtcs, mask, s, j + 1)
    }
}

/// The first free engine an encoder of the port can drive, encoders taken
/// in order and, for each, the device's engines in order.
pub open spec fn first_free(crtcs: Seq<u32>, encoders: Seq<u32>, s: Seq<(u32, u32)>) -> Option<u32>
    decreases encoders.len(),
{
    if encoders.len() == 0 {
        None
    } else {
        match first_free_in_mask(crtcs, encoders[0], s, 0) {
            Some(k) => Some(k),
            None => first_free(crtcs, encoders.drop_first(), s),
        }
    }
}

/// Port `c` is driven by engine `k`.
pub open spec fn maps_to(s: Seq<(u32, u32)>, c: u32, k: u32) -> bool {
    exists|i: int| 0 <= i < s.len() && #[trigger] s[i] == (c, k)
}

/// Port `c` has an engine.
pub open spec fn assigned(s: Seq<(u32, u32)>, c: u32) -> bool {
    exists|i: int| 0 <= i < s.len() && #[trigger] s[i].0 == c
}

/// Engine `k` drives some port.
pub open spec fn claimed(s: Seq<(u32, u32)>, k: u32) -> bool {
    exists|i: int| 0 <= i < s.len() && #[trigger] s[i].1 == k
}

/// No port has two engines and no engine serves two ports.
pub open spec fn injective(s: Seq<(u32, u32)>) -> bool {
    forall|i: int, j: int| 0 <= i < j < s.len() ==> s[i].0 != s[j].0 && s[i].1 != s[j].1
}

/// Some listed entry for port `c` is not connected: its claim is given up.
pub open spec fn released(conns: Seq<ConnectorView>, c: u32) -> bool {
    exists|i: int| 0 <= i < conns.len() && #[trigger] conns[i].handle == c
        && conns[i].state != ConnectorState::Connected
}

/// Engine `k` may go to port `conn`: it is the engine the port was left
/// bound to, or one that an encoder of the port can drive.
pub open spec fn eligible(crtcs: Seq<u32>, conn: ConnectorView, k: u32) -> bool {
    conn.current_crtc == Some(k) || compatible(crtcs, conn.encoders, k)
}

/// The claims left once those of released ports are dropped.
pub open spec fn release_spec(s: Seq<(u32, u32)>, conns: Seq<ConnectorView>) -> Seq<(u32, u32)> {
    s.filter(|e: (u32, u32)| !released(conns, e.0))
}

/// A connected, unreleased port without engine gets back the engine it was
/// left bound to, if that one is free.
pub open spec fn restore_step(p: Seq<(u32, u32)>, conns: Seq<ConnectorView>, c: ConnectorView) -> Seq<(u32, u32)> {
    if c.state == ConnectorState::Connected && !released(conns, c.handle) && !assigned(p, c.handle) {
        match c.current_crtc {
            Some(k) => if !claimed(p, k) { p.push((c.handle, k)) } else { p },
            None => p,
        }
    } else {
        p
    }
}

/// The restore step applied to the first `n` ports, in order.
pub open spec fn restore_upto(p: Seq<(u32, u32)>, conns: Seq<ConnectorView>, n: int) -> Seq<(u32, u32)>
    decreases n,
{
    if n <= 0 {
        p
    } else {
        restore_step(restore_upto(p, conns, n - 1), conns, conns[n - 1])
    }
}

/// A connected, unreleased port still without engine gets the first free
/// engine one of its encoders can drive.
pub open spec fn allocate_step(
    p: Seq<(u32, u32)>,
    crtcs: Seq<u32>,
    conns: Seq<ConnectorView>,
    c: ConnectorView,
) -> Seq<(u32, u32)> {
    if c.state == ConnectorState::Connected && !released(conns, c.handle) && !assigned(p, c.handle) {
        match first_free(crtcs, c.encoders, p) {
            Some(k) => p.push((c.handle, k)),
            None => p,
        }
    } else {
        p
    }
}

/// The allocate step applied to the first `n` ports, in order.
pub open spec fn allocate_upto(p: Seq<(u32, u32)>, crtcs: Seq<u32>, conns: Seq<ConnectorView>, n: int) -> Seq<
    (u32, u32),
>
    decreases n,
{
    if n <= 0 {
        p
    } else {
        allocate_step(allocate_upto(p, crtcs, conns, n - 1), crtcs, conns, conns[n - 1])
    }
}

/// The assignment a pass of the simple mapper leaves: releases first, then
/// restores in scan order, then allocations in scan order.
pub open spec fn simple_map(s: Seq<(u32, u32)>, crtcs: Seq<u32>, conns: Seq<ConnectorView>) -> Seq<(u32, u32)> {
    allocate_upto(restore_upto(release_spec(s, conns), conns, conns.len() as int), crtcs, conns, conns.len() as int)
}

/// `b` holds the entries of `a` at the same places, and maybe more after them.
pub open spec fn extends(a: Seq<(u32, u32)>, b: Seq<(u32, u32)>) -> bool {
    a.len() <= b.len() && forall|x: int| 0 <= x < a.len() ==> #[trigger] b[x] == a[x]
}

proof fn lemma_extends_keeps(a: Seq<(u32, u32)>, b: Seq<(u32, u32)>)
    requires
        extends(a, b),
    ensures
        forall|c: u32| #[trigger] assigned(a, c) ==> assigned(b, c),
        forall|k: u32| #[trigger] claimed(a, k) ==> claimed(b, k),
        forall|c: u32, k: u32| #[trigger] maps_to(a, c, k) ==> maps_to(b, c, k),
{
    assert forall|c: u32| #[trigger] assigned(a, c) implies assigned(b, c) by {
        let x = choose|x: int| 0 <= x < a.len() && #[trigger] a[x].0 == c;
        assert(b[x] == a[x]);
    }
    assert forall|k: u32| #[trigger] claimed(a, k) implies claimed(b, k) by {
        let x = choose|x: int| 0 <= x < a.len() && #[trigger] a[x].1 == k;
        assert(b[x] == a[x]);
    }
    assert forall|c: u32, k: u32| #[trigger] maps_to(a, c, k) implies maps_to(b, c, k) by {
        let x = choose|x: int| 0 <= x < a.len() && #[trigger] a[x] == (c, k);
        assert(b[x] == a[x]);
    }
}

/// Port `c`, listed as connected and not released, may take engine `k`.
pub open spec fn fresh_claim(crtcs: Seq<u32>, conns: Seq<ConnectorView>, c: u32, k: u32) -> bool {
    !released(conns, c) && exists|i: int| 0 <= i < conns.len() && #[trigger] conns[i].handle == c
        && conns[i].state == ConnectorState::Connected && eligible(crtcs, conns[i], k)
}

/// What a mapping pass guarantees, from assignment `s0` to `s1`, over the
/// device's engines `crtcs` and the known ports `conns`.
pub open spec fn map_post(
    s0: Seq<(u32, u32)>,
    s1: Seq<(u32, u32)>,
    crtcs: Seq<u32>,
    conns: Seq<ConnectorView>,
) -> bool {
    &&& injective(s1)
    // a claim of a port that is not released is kept; a released one is dropped
    &&& forall|c: u32, k: u32| #[trigger] maps_to(s0, c, k) && !released(conns, c) ==> maps_to(s1, c, k)
    &&& forall|c: u32| released(conns, c) && #[trigger] assigned(s0, c) ==> !assigned(s1, c)
    // every claim is kept, or made for a connected port on an eligible engine
    &&& forall|c: u32, k: u32| #[trigger] maps_to(s1, c, k) ==> !released(conns, c) && (maps_to(s0, c, k)
        || exists|i: int| 0 <= i < conns.len() && #[trigger] conns[i].handle == c
            && conns[i].state == ConnectorState::Connected && eligible(crtcs, conns[i], k))
    // a connected port left without engine had none free to take
    &&& forall|i: int| 0 <= i < conns.len() && conns[i].state == ConnectorState::Connected
        && !released(conns, conns[i].handle) && !assigned(s1, #[trigger] conns[i].handle) ==>
        forall|k: u32| #[trigger] eligible(crtcs, conns[i], k) ==> claimed(s1, k)
}

/// An engine serves at most one port: in an injective assignment two ports
/// mapped to the same engine are the same port.
pub proof fn lemma_engine_serves_one_port(s: Seq<(u32, u32)>, c1: u32, c2: u32, k: u32)
    requires
        injective(s),
        maps_to(s, c1, k),
        maps_to(s, c2, k),
    ensures
        c1 == c2,
{
    let i = choose|i: int| 0 <= i < s.len() && #[trigger] s[i] == (c1, k);
    let j = choose|j: int| 0 <= j < s.len() && #[trigger] s[j] == (c2, k);
    if i < j {
        assert(s[i].1 != s[j].1);
    } else if j < i {
        assert(s[j].1 != s[i].1);
    }
}

/// A port that keeps its engine across a pass keeps it, and a port that
/// newly gets one never gets an engine already serving another port.
pub proof fn lemma_map_keeps_claims(
    s0: Seq<(u32, u32)>,
    s1: Seq<(u32, u32)>,
    crtcs: Seq<u32>,
    conns: Seq<ConnectorView>,
    a: u32,
    k: u32,
    b: u32,
    kb: u32,
)
    requires
        injective(s0),
        map_post(s0, s1, crtcs, conns),
        maps_to(s0, a, k),
        !released(conns, a),
        b != a,
        maps_to(s1, b, kb),
    ensures
        maps_to(s1, a, k),
        kb != k,
{
    if kb == k {
        lemma_engine_serves_one_port(s1, a, b, k);
    }
}

/// A second mapping pass over the same engines and ports changes no claim.
pub proof fn lemma_map_twice(
    s0: Seq<(u32, u32)>,
    s1: Seq<(u32, u32)>,
    s2: Seq<(u32, u32)>,
    crtcs: Seq<u32>,
    conns: Seq<ConnectorView>,
)
    requires
        map_post(s0, s1, crtcs, conns),
        map_post(s1, s2, crtcs, conns),
    ensures
        forall|c: u32, k: u32| #[trigger] maps_to(s2, c, k) <==> maps_to(s1, c, k),
{
    assert forall|c: u32, k: u32| #[trigger] maps_to(s2, c, k) <==> maps_to(s1, c, k) by {
        if maps_to(s1, c, k) {
            assert(!released(conns, c));
        }
        if maps_to(s2, c, k) && !maps_to(s1, c, k) {
            let i = choose|i: int| 0 <= i < conns.len() && #[trigger] conns[i].handle == c
                && conns[i].state == ConnectorState::Connected && eligible(crtcs, conns[i], k);
            let x = choose|x: int| 0 <= x < s2.len() && #[trigger] s2[x] == (c, k);
            if assigned(s1, c) {
                let y = choose|y: int| 0 <= y < s1.len() && #[trigger] s1[y].0 == c;
                assert(maps_to(s1, c, s1[y].1));
                assert(maps_to(s2, c, s1[y].1));
                let z = choose|z: int| 0 <= z < s2.len() && #[trigger] s2[z] == (c, s1[y].1);
                assert(x != z);
            } else {
                assert(claimed(s1, k));
                let y = choose|y: int| 0 <= y < s1.len() && #[trigger] s1[y].1 == k;
                assert(maps_to(s1, s1[y].0, k));
                assert(maps_to(s2, s1[y].0, k));
                let z = choose|z: int| 0 <= z < s2.len() && #[trigger] s2[z] == (s1[y].0, k);
                assert(x != z);
            }
        }
    }
}

/// Assigns timing engines to connected ports, preferring the engine a port
/// was left bound to, and otherwise the first free one its encoders can drive.
pub struct SimpleCrtcMapper {
    crtcs: Vec<(u32, u32)>,
}

/// The engine reported beside port `c`: the one it maps to, or none if it has none.
pub open spec fn reports_engine(s: Seq<(u32, u32)>, c: u32, r: Option<u32>) -> bool {
    match r {
        Some(k) => maps_to(s, c, k),
        None => !assigned(s, c),
    }
}

/// A strategy for assigning timing engines to ports.
pub trait CrtcMapper {
    /// The assignment, as (port, engine) pairs.
    spec fn assignment(&self) -> Seq<(u32, u32)>;

    /// What the mapper keeps true between calls.
    spec fn wf(&self) -> bool;

    /// The assignment a mapping pass over `crtcs` and `conns` leaves.
    spec fn chosen(&self, crtcs: Seq<u32>, conns: Seq<ConnectorView>) -> Seq<(u32, u32)>;

    /// Maps engines for the known ports `conns` (in scan order) over the
    /// device's engines `crtcs`.
    fn map(&mut self, crtcs: &Vec<u32>, conns: &Vec<ConnectorInfo>)
        requires
            old(self).wf(),
            injective(old(self).assignment()),
        ensures
            final(self).wf(),
            final(self).assignment() == old(self).chosen(crtcs@, views(conns@)),
            map_post(old(self).assignment(), final(self).assignment(), crtcs@, views(conns@)),
    ;

    /// The engine port `c` is driven by, if any.
    fn crtc_for_connector(&self, c: u32) -> (r: Option<u32>)
        requires
            self.wf(),
            injective(self.assignment()),
        ensures
            reports_engine(self.assignment(), c, r),
    ;
}

impl CrtcMapper for SimpleCrtcMapper {
    closed spec fn assignment(&self) -> Seq<(u32, u32)> {
        self.crtcs@
    }

    closed spec fn wf(&self) -> bool {
        injective(self.crtcs@)
    }

    open spec fn chosen(&self, crtcs: Seq<u32>, conns: Seq<ConnectorView>) -> Seq<(u32, u32)> {
        simple_map(self.assignment(), crtcs, conns)
    }

    /// Claims of listed ports that are not connected are released, then each
    /// connected port without engine first gets back the engine it was left
    /// bound to, if free, and otherwise the first free engine one of its
    /// encoders can drive.
    fn map(&mut self, crtcs: &Vec<u32>, conns: &Vec<ConnectorInfo>) {
        self.map_engines(crtcs, conns);
    }

    fn crtc_for_connector(&self, c: u32) -> (r: Option<u32>) {
        self.lookup(c)
    }
}

impl SimpleCrtcMapper {

    pub fn new() -> (r: Self)
        ensures
            r.wf(),
            r.assignment() == Seq::<(u32, u32)>::empty(),
    {
        SimpleCrtcMapper { crtcs: Vec::new() }
    }

    fn is_taken(&self, crtc: u32) -> (r: bool)
        ensures
            r == claimed(self.assignment(), crtc),
    {
        let mut i: usize = 0;
        while i < self.crtcs.len()
            invariant
                i <= self.crtcs@.len(),
                forall|j: int| 0 <= j < i ==> self.crtcs@[j].1 != crtc,
            decreases self.crtcs.len() - i,
        {
            if self.crtcs[i].1 == crtc {
                assert(self.crtcs@[i as int].1 == crtc);
                return true;
            }
            i += 1;
        }
        false
    }

    fn is_available(&self, crtc: u32) -> (r: bool)
        ensures
            r == !claimed(self.assignment(), crtc),
    {
        !self.is_taken(crtc)
    }

    /// Drops the claims of the listed ports that are not connected.
    fn release(&mut self, conns: &Vec<ConnectorInfo>)
        requires
            injective(old(self).crtcs@),
        ensures
            injective(final(self).crtcs@),
            forall|x: int| 0 <= x < final(self).crtcs@.len() ==> !released(views(conns@), #[trigger] final(self).crtcs@[x].0),
            forall|c: u32, k: u32| #[trigger] maps_to(final(self).crtcs@, c, k)
                <==> maps_to(old(self).crtcs@, c, k) && !released(views(conns@), c),
            final(self).crtcs@ == release_spec(old(self).crtcs@, views(conns@)),
    {
        let ghost s0 = self.crtcs@;
        let ghost cv = views(conns@);
        let mut kept: Vec<(u32, u32)> = Vec::new();
        let mut i: usize = 0;
        while i < self.crtcs.len()
            invariant
                s0 == self.crtcs@,
                cv == views(conns@),
                injective(s0),
                i <= s0.len(),
                injective(kept@),
                forall|x: int| 0 <= x < kept@.len() ==> exists|j: int| 0 <= j < i && #[trigger] s0[j] == #[trigger] kept@[x],
                forall|x: int| 0 <= x < kept@.len() ==> !released(cv, #[trigger] kept@[x].0),
                forall|j: int| 0 <= j < i && !released(cv, #[trigger] s0[j].0) ==> maps_to(kept@, s0[j].0, s0[j].1),
                kept@ == release_spec(s0.take(i as int), cv),
            decreases s0.len() - i,
        {
            let e = self.crtcs[i];
            proof {
                assert(s0.take(i as int + 1).drop_last() =~= s0.take(i as int));
                reveal(Seq::filter);
            }
            if !is_released(conns, e.0) {
                let ghost k0 = kept@;
                kept.push(e);
                assert forall|x: int| 0 <= x < kept@.len() implies exists|j: int| 0 <= j < i + 1 && #[trigger] s0[j] == #[trigger] kept@[x] by {
                    if x == k0.len() {
                        assert(s0[i as int] == kept@[x]);
                    } else {
                        assert(kept@[x] == k0[x]);
                    }
                }
                assert forall|a: int, b: int| 0 <= a < b < kept@.len() implies kept@[a].0 != kept@[b].0 && kept@[a].1 != kept@[b].1 by {
                    if b == k0.len() {
                        assert(kept@[a] == k0[a]);
                        let j = choose|j: int| 0 <= j < i && #[trigger] s0[j] == k0[a];
                        assert(s0[j] == k0[a]);
                    }
                }
                assert forall|j: int| 0 <= j < i + 1 && !released(cv, #[trigger] s0[j].0) implies maps_to(kept@, s0[j].0, s0[j].1) by {
                    if j == i {
                        assert(kept@[k0.len() as int] == s0[j]);
                    } else {
                        let x = choose|x: int| 0 <= x < k0.len() && #[trigger] k0[x] == (s0[j].0, s0[j].1);
                        assert(kept@[x] == k0[x]);
                    }
                }
            }
            i += 1;
        }
        assert forall|c: u32, k: u32| #[trigger] maps_to(kept@, c, k)
            <==> maps_to(s0, c, k) && !released(cv, c) by {
            if maps_to(kept@, c, k) {
                let x = choose|x: int| 0 <= x < kept@.len() && #[trigger] kept@[x] == (c, k);
                let j = choose|j: int| 0 <= j < i && #[trigger] s0[j] == #[trigger] kept@[x];
                assert(s0[j] == (c, k));
                assert(!released(cv, kept@[x].0));
            }
            if maps_to(s0, c, k) && !released(cv, c) {
                let j = choose|j: int| 0 <= j < s0.len() && #[trigger] s0[j] == (c, k);
                assert(!released(cv, s0[j].0));
            }
        }
        assert(s0.take(s0.len() as int) =~= s0);
        self.crtcs = kept;
    }

    /// Gives each connected port without engine the engine it was left bound
    /// to, where that engine is free.
    fn restore_pass(&mut self, crtcs: &Vec<u32>, conns: &Vec<ConnectorInfo>)
        requires
            injective(old(self).crtcs@),
            forall|x: int| 0 <= x < old(self).crtcs@.len() ==> !released(views(conns@), #[trigger] old(self).crtcs@[x].0),
        ensures
            injective(final(self).crtcs@),
            extends(old(self).crtcs@, final(self).crtcs@),
            forall|x: int| 0 <= x < final(self).crtcs@.len() ==> !released(views(conns@), #[trigger] final(self).crtcs@[x].0),
            forall|x: int| old(self).crtcs@.len() <= x < final(self).crtcs@.len() ==>
                fresh_claim(crtcs@, views(conns@), #[trigger] final(self).crtcs@[x].0, final(self).crtcs@[x].1),
            forall|j: int| 0 <= j < conns@.len() && conns@[j].state == ConnectorState::Connected
                && !released(views(conns@), #[trigger] conns@[j].handle) && !assigned(final(self).crtcs@, conns@[j].handle)
                ==> (conns@[j].current_crtc matches Some(k) ==> claimed(final(self).crtcs@, k)),
            final(self).crtcs@ == restore_upto(old(self).crtcs@, views(conns@), conns@.len() as int),
    {
        let ghost s0 = self.crtcs@;
        let ghost cv = views(conns@);
        let mut i: usize = 0;
        while i < conns.len()
            invariant
                cv == views(conns@),
                i <= conns@.len(),
                injective(self.crtcs@),
                extends(s0, self.crtcs@),
                forall|x: int| 0 <= x < self.crtcs@.len() ==> !released(cv, #[trigger] self.crtcs@[x].0),
                forall|x: int| s0.len() <= x < self.crtcs@.len() ==>
                    fresh_claim(crtcs@, cv, #[trigger] self.crtcs@[x].0, self.crtcs@[x].1),
                forall|j: int| 0 <= j < i && conns@[j].state == ConnectorState::Connected
                    && !released(cv, #[trigger] conns@[j].handle) && !assigned(self.crtcs@, conns@[j].handle)
                    ==> (conns@[j].current_crtc matches Some(k) ==> claimed(self.crtcs@, k)),
                self.crtcs@ == restore_upto(s0, cv, i as int),
            decreases conns.len() - i,
        {
            let h = conns[i].handle;
            let ghost start = self.crtcs@;
            let connected = conns[i].state == ConnectorState::Connected;
            let rel = is_released(conns, h);
            let cur = self.lookup(h);
            let pick = if connected && !rel && cur.is_none() {
                self.restored_for_connector(&conns[i])
            } else {
                None
            };
            {
                if let Some(k) = pick {
                    let ghost before = self.crtcs@;
                    self.crtcs.push((h, k));
                    proof {
                        assert(cv[i as int] == conns@[i as int]@);
                        assert(cv[i as int].handle == h);
                        assert(eligible(crtcs@, cv[i as int], k));
                        assert(self.crtcs@[before.len() as int].0 == h);
                        assert(self.crtcs@[before.len() as int].1 == k);
                        assert(extends(before, self.crtcs@));
                        lemma_extends_keeps(before, self.crtcs@);
                        assert(self.crtcs@[before.len() as int] == (h, k));
                        assert forall|a: int, b: int| 0 <= a < b < self.crtcs@.len() implies
                            self.crtcs@[a].0 != self.crtcs@[b].0 && self.crtcs@[a].1 != self.crtcs@[b].1 by {
                            if b == before.len() {
                                assert(self.crtcs@[a] == before[a]);
                            }
                        }
                        assert(fresh_claim(crtcs@, cv, h, k));
                        assert(claimed(self.crtcs@, k));
                    }
                }
            }
            proof {
                assert(extends(start, self.crtcs@));
                lemma_extends_keeps(start, self.crtcs@);
                assert forall|j: int| 0 <= j < i + 1 && conns@[j].state == ConnectorState::Connected
                    && !released(cv, #[trigger] conns@[j].handle) && !assigned(self.crtcs@, conns@[j].handle)
                    implies (conns@[j].current_crtc matches Some(k) ==> claimed(self.crtcs@, k)) by {
                    if j < i {
                        assert(!assigned(start, conns@[j].handle));
                        if let Some(k) = conns@[j].current_crtc {
                            assert(claimed(start, k));
                        }
                    } else {
                        assert(j == i as int);
                        assert(cv[j] == conns@[j]@);
                        assert(pick is None);
                        assert(!assigned(start, h));
                        if let Some(k) = conns@[j].current_crtc {
                            assert(claimed(start, k));
                        }
                    }
                }
            }
            i += 1;
        }
    }

    /// Gives each connected port still without engine the first free engine
    /// that one of its encoders can drive.
    fn allocate_pass(&mut self, crtcs: &Vec<u32>, conns: &Vec<ConnectorInfo>)
        requires
            injective(old(self).crtcs@),
            forall|x: int| 0 <= x < old(self).crtcs@.len() ==> !released(views(conns@), #[trigger] old(self).crtcs@[x].0),
        ensures
            injective(final(self).crtcs@),
            extends(old(self).crtcs@, final(self).crtcs@),
            forall|x: int| 0 <= x < final(self).crtcs@.len() ==> !released(views(conns@), #[trigger] final(self).crtcs@[x].0),
            forall|x: int| old(self).crtcs@.len() <= x < final(self).crtcs@.len() ==>
                fresh_claim(crtcs@, views(conns@), #[trigger] final(self).crtcs@[x].0, final(self).crtcs@[x].1),
            forall|j: int| 0 <= j < conns@.len() && conns@[j].state == ConnectorState::Connected
                && !released(views(conns@), #[trigger] conns@[j].handle) && !assigned(final(self).crtcs@, conns@[j].handle)
                ==> forall|k: u32| #[trigger] compatible(crtcs@, conns@[j].encoders@, k) ==> claimed(final(self).crtcs@, k),
            final(self).crtcs@ == allocate_upto(old(self).crtcs@, crtcs@, views(conns@), conns@.len() as int),
    {
        let ghost s0 = self.crtcs@;
        let ghost cv = views(conns@);
        let mut i: usize = 0;
        while i < conns.len()
            invariant
                cv == views(conns@),
                i <= conns@.len(),
                injective(self.crtcs@),
                extends(s0, self.crtcs@),
                forall|x: int| 0 <= x < self.crtcs@.len() ==> !released(cv, #[trigger] self.crtcs@[x].0),
                forall|x: int| s0.len() <= x < self.crtcs@.len() ==>
                    fresh_claim(crtcs@, cv, #[trigger] self.crtcs@[x].0, self.crtcs@[x].1),
                forall|j: int| 0 <= j < i && conns@[j].state == ConnectorState::Connected
                    && !released(cv, #[trigger] conns@[j].handle) && !assigned(self.crtcs@, conns@[j].handle)
                    ==> forall|k: u32| #[trigger] compatible(crtcs@, conns@[j].encoders@, k) ==> claimed(self.crtcs@, k),
                self.crtcs@ == allocate_upto(s0, crtcs@, cv, i as int),
            decreases conns.len() - i,
        {
            let h = conns[i].handle;
            let ghost start = self.crtcs@;
            let connected = conns[i].state == ConnectorState::Connected;
            let rel = is_released(conns, h);
            let cur = self.lookup(h);
            let pick = if connected && !rel && cur.is_none() {
                self.next_available_for_connector(crtcs, &conns[i])
            } else {
                None
            };
            {
                if let Some(k) = pick {
                    let ghost before = self.crtcs@;
                    self.crtcs.push((h, k));
                    proof {
                        assert(cv[i as int] == conns@[i as int]@);
                        assert(cv[i as int].handle == h);
                        assert(eligible(crtcs@, cv[i as int], k));
                        assert(self.crtcs@[before.len() as int].0 == h);
                        assert(self.crtcs@[before.len() as int].1 == k);
                        assert(extends(before, self.crtcs@));
                        lemma_extends_keeps(before, self.crtcs@);
                        assert(self.crtcs@[before.len() as int] == (h, k));
                        assert forall|a: int, b: int| 0 <= a < b < self.crtcs@.len() implies
                            self.crtcs@[a].0 != self.crtcs@[b].0 && self.crtcs@[a].1 != self.crtcs@[b].1 by {
                            if b == before.len() {
                                assert(self.crtcs@[a] == before[a]);
                            }
                        }
                        assert(fresh_claim(crtcs@, cv, h, k));
                        assert(assigned(self.crtcs@, h));
                    }
                }
            }
            proof {
                assert(extends(start, self.crtcs@));
                lemma_extends_keeps(start, self.crtcs@);
                assert forall|j: int| 0 <= j < i + 1 && conns@[j].state == ConnectorState::Connected
                    && !released(cv, #[trigger] conns@[j].handle) && !assigned(self.crtcs@, conns@[j].handle)
                    implies forall|k: u32| #[trigger] compatible(crtcs@, conns@[j].encoders@, k) ==> claimed(self.crtcs@, k) by {
                    if j < i {
                        assert(!assigned(start, conns@[j].handle));
                    } else {
                        assert(j == i as int);
                        assert(cv[j] == conns@[j]@);
                        assert(pick is None);
                        assert(!assigned(start, h));
                    }
                }
            }
            i += 1;
        }
    }

    fn map_engines(&mut self, crtcs: &Vec<u32>, conns: &Vec<ConnectorInfo>)
        requires
            old(self).wf(),
        ensures
            final(self).wf(),
            final(self).assignment() == simple_map(old(self).assignment(), crtcs@, views(conns@)),
            map_post(old(self).assignment(), final(self).assignment(), crtcs@, views(conns@)),
    {
        let ghost s0 = self.crtcs@;
        let ghost cv = views(conns@);
        self.release(conns);
        let ghost s1 = self.crtcs@;
        self.restore_pass(crtcs, conns);
        let ghost s2 = self.crtcs@;
        self.allocate_pass(crtcs, conns);
        let ghost s3 = self.crtcs@;
        proof {
            lemma_extends_keeps(s1, s2);
            lemma_extends_keeps(s2, s3);
            assert forall|c: u32, k: u32| #[trigger] maps_to(s0, c, k) && !released(cv, c) implies maps_to(s3, c, k) by {
                assert(maps_to(s1, c, k));
                assert(maps_to(s2, c, k));
            }
            assert forall|c: u32| released(cv, c) && #[trigger] assigned(s0, c) implies !assigned(s3, c) by {
                if assigned(s3, c) {
                    let x = choose|x: int| 0 <= x < s3.len() && #[trigger] s3[x].0 == c;
                    assert(!released(cv, s3[x].0));
                }
            }
            assert forall|c: u32, k: u32| #[trigger] maps_to(s3, c, k) implies !released(cv, c) && (maps_to(s0, c, k)
                || exists|i: int| 0 <= i < cv.len() && #[trigger] cv[i].handle == c
                    && cv[i].state == ConnectorState::Connected && eligible(crtcs@, cv[i], k)) by {
                let x = choose|x: int| 0 <= x < s3.len() && #[trigger] s3[x] == (c, k);
                assert(!released(cv, s3[x].0));
                if x < s1.len() {
                    assert(s3[x] == s2[x]);
                    assert(s2[x] == s1[x]);
                    assert(maps_to(s1, c, k));
                } else if x < s2.len() {
                    assert(s3[x] == s2[x]);
                    assert(fresh_claim(crtcs@, cv, s2[x].0, s2[x].1));
                } else {
                    assert(fresh_claim(crtcs@, cv, s3[x].0, s3[x].1));
                }
            }
            assert forall|i: int| 0 <= i < cv.len() && cv[i].state == ConnectorState::Connected
                && !released(cv, cv[i].handle) && !assigned(s3, #[trigger] cv[i].handle) implies
                forall|k: u32| #[trigger] eligible(crtcs@, cv[i], k) ==> claimed(s3, k) by {
                assert(cv[i] == conns@[i]@);
                assert(!assigned(s2, conns@[i].handle));
                assert forall|k: u32| #[trigger] eligible(crtcs@, cv[i], k) implies claimed(s3, k) by {
                    if cv[i].current_crtc == Some(k) {
                        assert(claimed(s2, k));
                    } else {
                        assert(compatible(crtcs@, conns@[i].encoders@, k));
                    }
                }
            }
        }
    }

    fn lookup(&self, c: u32) -> (r: Option<u32>)
        ensures
            r matches Some(k) ==> maps_to(self.assignment(), c, k),
            r is Some <==> assigned(self.assignment(), c),
    {
        let mut i: usize = 0;
        while i < self.crtcs.len()
            invariant
                i <= self.crtcs@.len(),
                forall|j: int| 0 <= j < i ==> self.crtcs@[j].0 != c,
            decreases self.crtcs.len() - i,
        {
            if self.crtcs[i].0 == c {
                assert(self.crtcs@[i as int] == (c, self.crtcs@[i as int].1));
                assert(self.crtcs@[i as int].0 == c);
                return Some(self.crtcs[i].1);
            }
            i += 1;
        }
        None
    }

    /// The engine the port was left bound to, if it is free.
    fn restored_for_connector(&self, conn: &ConnectorInfo) -> (r: Option<u32>)
        ensures
            r matches Some(k) ==> conn.current_crtc == Some(k) && !claimed(self.assignment(), k),
            r is None ==> (conn.current_crtc matches Some(k) ==> claimed(self.assignment(), k)),
    {
        match conn.current_crtc {
            Some(k) => if self.is_available(k) {
                Some(k)
            } else {
                None
            },
            None => None,
        }
    }

    /// The first free engine of the device that an encoder of the port can
    /// drive, encoders taken in order.
    fn next_available_for_connector(&self, crtcs: &Vec<u32>, conn: &ConnectorInfo) -> (r: Option<u32>)
        ensures
            r == first_free(crtcs@, conn.encoders@, self.assignment()),
            r matches Some(k) ==> compatible(crtcs@, conn.encoders@, k) && !claimed(self.assignment(), k),
            r is None ==> forall|k: u32| #[trigger] compatible(crtcs@, conn.encoders@, k)
                ==> claimed(self.assignment(), k),
    {
        let mut e: usize = 0;
        let ghost encs = conn.encoders@;
        assert(encs.subrange(0, encs.len() as int) =~= encs);
        while e < conn.encoders.len()
            invariant
                e <= conn.encoders@.len(),
                encs == conn.encoders@,
                first_free(crtcs@, encs, self.assignment())
                    == first_free(crtcs@, encs.subrange(e as int, encs.len() as int), self.assignment()),
                forall|e2: int, j: int| 0 <= e2 < e && 0 <= j < crtcs@.len() && mask_bit(conn.encoders@[e2], j)
                    ==> claimed(self.assignment(), crtcs@[j]),
            decreases conn.encoders.len() - e,
        {
            let mask = conn.encoders[e];
            proof {
                let rest = encs.subrange(e as int, encs.len() as int);
                assert(rest[0] == mask);
                assert(rest.drop_first() =~= encs.subrange(e as int + 1, encs.len() as int));
            }
            let mut j: usize = 0;
            while j < crtcs.len() && j < 32
                invariant
                    e < conn.encoders@.len(),
                    mask == conn.encoders@[e as int],
                    j <= crtcs@.len(),
                    first_free_in_mask(crtcs@, mask, self.assignment(), 0)
                        == first_free_in_mask(crtcs@, mask, self.assignment(), j as int),
                    encs == conn.encoders@,
                    first_free(crtcs@, encs, self.assignment())
                        == first_free(crtcs@, encs.subrange(e as int, encs.len() as int), self.assignment()),
                    forall|j2: int| 0 <= j2 < j && j2 < crtcs@.len() && mask_bit(mask, j2)
                        ==> claimed(self.assignment(), crtcs@[j2]),
                decreases crtcs.len() - j,
            {
                if (mask >> (j as u32)) & 1u32 == 1u32 {
                    let k = crtcs[j];
                    if self.is_available(k) {
                        assert(mask_bit(conn.encoders@[e as int], j as int));
                        assert(crtcs@[j as int] == k);
                        proof {
                            let rest = encs.subrange(e as int, encs.len() as int);
                            assert(rest[0] == mask);
                            assert(first_free_in_mask(crtcs@, mask, self.assignment(), j as int) == Some(k));
                        }
                        return Some(k);
                    }
                }
                j += 1;
            }
            assert forall|j2: int| 0 <= j2 < crtcs@.len() && mask_bit(mask, j2)
                implies claimed(self.assignment(), crtcs@[j2]) by {
                if j2 >= j {
                    assert(j2 >= 32);
                }
            }
            e += 1;
        }
        assert(encs.subrange(e as int, encs.len() as int).len() == 0);
        None
    }
}

fn is_released(conns: &Vec<ConnectorInfo>, c: u32) -> (r: bool)
    ensures
        r == released(views(conns@), c),
{
    let mut i: usize = 0;
    while i < conns.len()
        invariant
            i <= conns@.len(),
            forall|j: int| 0 <= j < i ==> !(conns@[j].handle == c && conns@[j].state != ConnectorState::Connected),
        decreases conns.len() - i,
    {
        if conns[i].handle == c && conns[i].state != ConnectorState::Connected {
            assert(views(conns@)[i as int].handle == c);
            return true;
        }
        i += 1;
    }
    assert forall|j: int| 0 <= j < views(conns@).len() implies !(#[trigger] views(conns@)[j].handle == c
        && views(conns@)[j].state != ConnectorState::Connected) by {
        assert(views(conns@)[j] == conns@[j]@);
    }
    false
}

} // verus!
