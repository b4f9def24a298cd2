use vstd::prelude::*;

verus! {

/// Why a lease request was turned down.
#[derive(Clone, Copy, Debug, PartialEq, Eq, Structural)]
pub enum LeaseError {
    /// The request is for a device that is not known.
    UnknownDevice,
    /// A requested port is not one offered for leasing: it may be showing
    /// the desktop.
    DesktopConnector,
    /// No primary plane of an engine could be claimed.
    NoPrimaryPlane,
}

/// A plane the consumer may get, and whether claiming it for the engine succeeded.
#[derive(Clone, Copy, Debug, PartialEq, Eq, Structural)]
pub struct PlaneClaim {
    pub plane: u32,
    pub claimed: bool,
}

/// The claims tried for the planes of one engine.
#[derive(Debug)]
pub struct EnginePlanes {
    pub primary: Vec<PlaneClaim>,
    pub cursor: Vec<PlaneClaim>,
}

/// What a lease grants for one port.
#[derive(Clone, Copy, Debug, PartialEq, Eq, Structural)]
pub struct LeaseGrant {
    pub connector: u32,
    pub crtc: u32,
    pub primary_plane: u32,
    pub cursor_plane: Option<u32>,
}

/// The first plane whose claim succeeded.
pub open spec fn first_claimed(planes: Seq<PlaneClaim>) -> Option<u32>
    decreases planes.len(),
{
    if planes.len() == 0 {
        None
    } else if planes[0].claimed {
        Some(planes[0].plane)
    } else {
        first_claimed(planes.drop_first())
    }
}

fn pick_plane(planes: &Vec<PlaneClaim>) -> (r: Option<u32>)
    ensures
        r == first_claimed(planes@),
{
    let mut i: usize = 0;
    assert(planes@.subrange(0, planes@.len() as int) =~= planes@);
    while i < planes.len()
        invariant
            i <= planes@.len(),
            first_claimed(planes@) == first_claimed(planes@.subrange(i as int, planes@.len() as int)),
        decreases planes.len() - i,
    {
        let ghost rest = planes@.subrange(i as int, planes@.len() as int);
        assert(rest.drop_first() =~= planes@.subrange(i as int + 1, planes@.len() as int));
        if planes[i].claimed {
            return Some(planes[i].plane);
        }
        i += 1;
    }
    assert(planes@.subrange(i as int, planes@.len() as int).len() == 0);
    None
}

/// The planes granted with one engine: its primary plane, and a cursor
/// plane when one could be claimed.
pub fn lease_planes(primary: &Vec<PlaneClaim>, cursor: &Vec<PlaneClaim>) -> (r: Result<(u32, Option<u32>), LeaseError>)
    ensures
        first_claimed(primary@) is None ==> r == Err::<(u32, Option<u32>), LeaseError>(LeaseError::NoPrimaryPlane),
        first_claimed(primary@) matches Some(p) ==> r == Ok::<(u32, Option<u32>), LeaseError>((p, first_claimed(cursor@))),
{
    match pick_plane(primary) {
        None => Err(LeaseError::NoPrimaryPlane),
        Some(p) => Ok((p, pick_plane(cursor))),
    }
}

} // verus!
