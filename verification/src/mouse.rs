//! The mouse reporting a program can ask for.
use vstd::prelude::*;

verus! {

/// Which pointer events are reported.
#[derive(Clone, Copy, PartialEq, Eq, Hash, Debug, Structural)]
pub enum MouseProtocol {
    Off,
    Press,
    ButtonEvent,
    AnyEvent,
}

/// What is reported, and whether in the SGR encoding.
#[derive(Clone, Copy, PartialEq, Eq, Hash, Debug, Structural)]
pub struct MouseMode {
    pub protocol: MouseProtocol,
    pub sgr: bool,
}

impl MouseMode {
    /// No reporting, the plain encoding.
    #[verifier::allow_in_spec]
    pub fn off() -> MouseMode
        returns
            (MouseMode { protocol: MouseProtocol::Off, sgr: false }),
    {
        MouseMode { protocol: MouseProtocol::Off, sgr: false }
    }

    /// Whether any event is reported.
    pub fn reports(self) -> (r: bool)
        ensures
            r == (self.protocol != MouseProtocol::Off),
    {
        self.protocol != MouseProtocol::Off
    }
}

impl Default for MouseMode {
    fn default() -> (r: MouseMode)
        ensures
            r == MouseMode::off(),
    {
        MouseMode::off()
    }
}

} // verus!
