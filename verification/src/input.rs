//! The keyboard protocols a program can ask for.
use vstd::prelude::*;

verus! {

/// The flags of the kitty keyboard protocol.
#[derive(Clone, Copy, PartialEq, Eq, Hash, Debug, Structural)]
pub struct KittyFlags(pub u8);

impl KittyFlags {
    /// The legacy encoding.
    #[verifier::allow_in_spec]
    pub fn none() -> KittyFlags
        returns
            KittyFlags(0),
    {
        KittyFlags(0)
    }

    /// Escape codes that cannot be mistaken for one another.
    #[verifier::allow_in_spec]
    pub fn disambiguate() -> KittyFlags
        returns
            KittyFlags(1),
    {
        KittyFlags(1)
    }

    /// Presses, repeats and releases told apart.
    #[verifier::allow_in_spec]
    pub fn report_event_types() -> KittyFlags
        returns
            KittyFlags(2),
    {
        KittyFlags(2)
    }

    /// Every flag that is acted on.
    #[verifier::allow_in_spec]
    pub fn supported() -> KittyFlags
        returns
            KittyFlags(3),
    {
        KittyFlags(3)
    }

    /// The flags of a request that are acted on.
    pub open spec fn granted(request: u16) -> KittyFlags {
        KittyFlags((request % 4) as u8)
    }

    /// What setting `flags` under `mode` makes of these: 1 replaces, 2 sets the bits, 3
    /// clears them, and any other mode changes nothing.
    pub open spec fn applied(self, flags: KittyFlags, mode: u16) -> KittyFlags {
        if mode == 1 {
            flags
        } else if mode == 2 {
            KittyFlags(self.0 | flags.0)
        } else if mode == 3 {
            KittyFlags(self.0 & !flags.0)
        } else {
            self
        }
    }

    /// A request masked to what is supported, so that a query reports what will really be
    /// done rather than what was asked for.
    pub fn from_request(request: u16) -> (r: KittyFlags)
        ensures
            r == KittyFlags::granted(request),
    {
        KittyFlags((request % 4) as u8)
    }

    /// Set `flags` under `mode`.
    pub fn apply(self, flags: KittyFlags, mode: u16) -> (r: KittyFlags)
        ensures
            r == self.applied(flags, mode),
    {
        match mode {
            1 => flags,
            2 => KittyFlags(self.0 | flags.0),
            3 => KittyFlags(self.0 & !flags.0),
            _ => self,
        }
    }

    /// The flags as the number a reply carries.
    pub fn bits(self) -> (r: u32)
        ensures
            r == self.0,
    {
        self.0 as u32
    }
}

impl core::ops::BitOr for KittyFlags {
    type Output = KittyFlags;

    /// The flags of either.
    fn bitor(self, rhs: KittyFlags) -> (r: KittyFlags) {
        KittyFlags(self.0 | rhs.0)
    }
}

impl vstd::std_specs::ops::BitOrSpecImpl for KittyFlags {
    open spec fn obeys_bitor_spec() -> bool {
        true
    }

    open spec fn bitor_req(self, rhs: KittyFlags) -> bool {
        true
    }

    open spec fn bitor_spec(self, rhs: KittyFlags) -> KittyFlags {
        KittyFlags(self.0 | rhs.0)
    }
}

/// xterm's `modifyOtherKeys` level.
#[derive(Clone, Copy, PartialEq, Eq, Hash, Debug, Structural)]
pub enum ModifyOtherKeys {
    Off,
    Level1,
    Level2,
}

impl ModifyOtherKeys {
    /// The level a parameter asks for.
    pub open spec fn of_param(v: u16) -> ModifyOtherKeys {
        if v == 1 {
            ModifyOtherKeys::Level1
        } else if v == 2 {
            ModifyOtherKeys::Level2
        } else {
            ModifyOtherKeys::Off
        }
    }

    /// The level a parameter asks for; anything unknown is off.
    pub fn from_param(v: u16) -> (r: ModifyOtherKeys)
        ensures
            r == ModifyOtherKeys::of_param(v),
    {
        match v {
            1 => ModifyOtherKeys::Level1,
            2 => ModifyOtherKeys::Level2,
            _ => ModifyOtherKeys::Off,
        }
    }
}

impl Default for ModifyOtherKeys {
    fn default() -> (r: ModifyOtherKeys)
        ensures
            r == ModifyOtherKeys::Off,
    {
        ModifyOtherKeys::Off
    }
}

} // verus!
