use vstd::prelude::*;

verus! {

/// Connection state that the kernel reports for a display port.
#[derive(Clone, Copy, Debug, PartialEq, Eq, Structural)]
pub enum ConnectorState {
    Connected,
    Disconnected,
    Unknown,
}

/// A display mode: resolution and refresh rate in millihertz.
#[derive(Clone, Copy, Debug, PartialEq, Eq, Structural)]
pub struct Mode {
    pub width: u32,
    pub height: u32,
    pub refresh_mhz: u32,
    pub preferred: bool,
}

/// What one scan learned about a physical display port.
///
/// `encoders` holds, per encoder of the port, the bit mask of timing engines
/// that encoder can drive: bit `i` stands for the device's `i`-th engine.
/// `current_crtc` is the engine that the port's active encoder is bound to,
/// as firmware or an earlier session left it.
#[derive(Debug)]
pub struct ConnectorInfo {
    pub handle: u32,
    pub state: ConnectorState,
    pub modes: Vec<Mode>,
    pub encoders: Vec<u32>,
    pub current_crtc: Option<u32>,
    pub non_desktop: bool,
}

pub struct ConnectorView {
    pub handle: u32,
    pub state: ConnectorState,
    pub modes: Seq<Mode>,
    pub encoders: Seq<u32>,
    pub current_crtc: Option<u32>,
    pub non_desktop: bool,
}

impl View for ConnectorInfo {
    type V = ConnectorView;

    open spec fn view(&self) -> ConnectorView {
        ConnectorView {
            handle: self.handle,
            state: self.state,
            modes: self.modes@,
            encoders: self.encoders@,
            current_crtc: self.current_crtc,
            non_desktop: self.non_desktop,
        }
    }
}

impl ConnectorInfo {
    /// A field-by-field copy.
    pub fn duplicate(&self) -> (r: Self)
        ensures
            r@ == self@,
    {
        let modes = self.modes.clone();
        let encoders = self.encoders.clone();
        assert(modes@ =~= self.modes@);
        assert(encoders@ =~= self.encoders@);
        ConnectorInfo {
            handle: self.handle,
            state: self.state,
            modes,
            encoders,
            current_crtc: self.current_crtc,
            non_desktop: self.non_desktop,
        }
    }
}

} // verus!
