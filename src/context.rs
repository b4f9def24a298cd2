use vstd::prelude::*;
use crate::registry::Registry;

verus! {

/// The one context value owned by the event loop and handed to every
/// callback: all mutable state lives here, so no callback shares state
/// any other way.
pub struct CalloopData {
    pub state: Registry,
}

impl CalloopData {
    pub fn state(&self) -> (r: &Registry)
        ensures
            *r == self.state,
    {
        &self.state
    }

    pub fn state_mut(&mut self) -> (r: &mut Registry)
        ensures
            *r == old(self).state,
            final(self).state == *final(r),
    {
        &mut self.state
    }
}

} // verus!
