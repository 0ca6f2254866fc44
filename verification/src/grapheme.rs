//! Where one user-perceived character ends and the next begins, one scalar at a time.
use vstd::prelude::*;
use crate::width::{is_regional, is_zero_width, regional, zero_width};

verus! {

/// What a scalar is to the cluster rules.
#[derive(Clone, Copy, PartialEq, Eq, Debug, Structural)]
pub enum Class {
    /// Begins a cluster and continues none.
    Other,
    /// Continues whatever is before it.
    Extend,
    /// The zero-width joiner.
    Joiner,
    /// A pictograph, which a joiner can tie to the one before.
    Pictograph,
    /// A regional indicator, which pairs up.
    Regional,
}

/// Pictographs, which a joiner can tie together.
pub open spec fn pictographic(v: u32) -> bool {
    ||| v == 0xa9
    ||| v == 0xae
    ||| v == 0x203c
    ||| v == 0x2049
    ||| v == 0x2122
    ||| v == 0x2139
    ||| 0x2194 <= v <= 0x2199
    ||| 0x21a9 <= v <= 0x21aa
    ||| 0x231a <= v <= 0x231b
    ||| v == 0x2328
    ||| v == 0x23cf
    ||| 0x23e9 <= v <= 0x23f3
    ||| 0x23f8 <= v <= 0x23fa
    ||| v == 0x24c2
    ||| 0x25aa <= v <= 0x25ab
    ||| v == 0x25b6
    ||| v == 0x25c0
    ||| 0x25fb <= v <= 0x25fe
    ||| 0x2600 <= v <= 0x27bf
    ||| 0x2934 <= v <= 0x2935
    ||| 0x2b05 <= v <= 0x2b07
    ||| 0x2b1b <= v <= 0x2b1c
    ||| v == 0x2b50
    ||| v == 0x2b55
    ||| v == 0x3030
    ||| v == 0x303d
    ||| v == 0x3297
    ||| v == 0x3299
    ||| 0x1f000 <= v <= 0x1f1e5
    ||| 0x1f200 <= v <= 0x1f3fa
    ||| 0x1f400 <= v <= 0x1faff
}

/// The class of a scalar.
#[verifier::opaque]
pub open spec fn class_of(c: char) -> Class {
    let v = c as u32;
    if v == 0x200d {
        Class::Joiner
    } else if 0x1f3fb <= v <= 0x1f3ff {
        Class::Extend
    } else if v >= 0x300 && zero_width(v) {
        Class::Extend
    } else if regional(c) {
        Class::Regional
    } else if pictographic(v) {
        Class::Pictograph
    } else {
        Class::Other
    }
}

/// Whether a scalar is a pictograph.
pub fn is_pictographic(v: u32) -> (r: bool)
    ensures
        r == pictographic(v),
{
    v == 0xa9
        || v == 0xae
        || v == 0x203c
        || v == 0x2049
        || v == 0x2122
        || v == 0x2139
        || (0x2194 <= v && v <= 0x2199)
        || (0x21a9 <= v && v <= 0x21aa)
        || (0x231a <= v && v <= 0x231b)
        || v == 0x2328
        || v == 0x23cf
        || (0x23e9 <= v && v <= 0x23f3)
        || (0x23f8 <= v && v <= 0x23fa)
        || v == 0x24c2
        || (0x25aa <= v && v <= 0x25ab)
        || v == 0x25b6
        || v == 0x25c0
        || (0x25fb <= v && v <= 0x25fe)
        || (0x2600 <= v && v <= 0x27bf)
        || (0x2934 <= v && v <= 0x2935)
        || (0x2b05 <= v && v <= 0x2b07)
        || (0x2b1b <= v && v <= 0x2b1c)
        || v == 0x2b50
        || v == 0x2b55
        || v == 0x3030
        || v == 0x303d
        || v == 0x3297
        || v == 0x3299
        || (0x1f000 <= v && v <= 0x1f1e5)
        || (0x1f200 <= v && v <= 0x1f3fa)
        || (0x1f400 <= v && v <= 0x1faff)
}

/// The class of `c`.
pub fn classify(c: char) -> (r: Class)
    ensures
        r == class_of(c),
{
    reveal(class_of);
    let v: u32 = c as u32;
    if v == 0x200d {
        Class::Joiner
    } else if 0x1f3fb <= v && v <= 0x1f3ff {
        Class::Extend
    } else if v >= 0x300 && is_zero_width(v) {
        Class::Extend
    } else if is_regional(c) {
        Class::Regional
    } else if is_pictographic(v) {
        Class::Pictograph
    } else {
        Class::Other
    }
}

/// The cluster machine, carried across scalars.
#[derive(Clone, Copy, PartialEq, Eq, Debug, Structural)]
pub struct BreakState {
    /// Any scalar has been seen.
    pub started: bool,
    /// A pictograph, and what extends it, stands at the end.
    pub pictograph: bool,
    /// A joiner follows such a pictograph.
    pub joined: bool,
    /// An odd number of regional indicators stands at the end.
    pub odd_regional: bool,
}

impl BreakState {
    /// The machine before any scalar.
    #[verifier::allow_in_spec]
    pub fn start() -> BreakState
        returns
            (BreakState { started: false, pictograph: false, joined: false, odd_regional: false }),
    {
        BreakState { started: false, pictograph: false, joined: false, odd_regional: false }
    }

    /// Whether a cluster boundary lies before `c`: there is none before something that
    /// extends, before a pictograph a joiner ties on, or inside a pair of regional
    /// indicators.
    pub open spec fn boundary(self, c: char) -> bool {
        !self.started || match class_of(c) {
            Class::Extend => false,
            Class::Joiner => false,
            Class::Pictograph => !self.joined,
            Class::Regional => !self.odd_regional,
            Class::Other => true,
        }
    }

    /// The machine after `c`.
    pub open spec fn after(self, c: char) -> BreakState {
        BreakState {
            started: true,
            pictograph: match class_of(c) {
                Class::Pictograph => true,
                Class::Extend => self.pictograph,
                _ => false,
            },
            joined: class_of(c) == Class::Joiner && self.pictograph,
            odd_regional: class_of(c) == Class::Regional && !(self.started && self.odd_regional),
        }
    }

    /// Forget what came before.
    pub fn reset(&mut self)
        ensures
            *final(self) == BreakState::start(),
    {
        *self = BreakState::start();
    }

    /// Feed `c` in, and say whether it begins a new cluster.
    pub fn breaks_before(&mut self, c: char) -> (r: bool)
        ensures
            r == old(self).boundary(c),
            *final(self) == old(self).after(c),
    {
        let class = classify(c);
        let before = *self;
        self.started = true;
        self.pictograph = match class {
            Class::Pictograph => true,
            Class::Extend => before.pictograph,
            _ => false,
        };
        self.joined = match class {
            Class::Joiner => before.pictograph,
            _ => false,
        };
        self.odd_regional = match class {
            Class::Regional => !(before.started && before.odd_regional),
            _ => false,
        };
        !before.started || match class {
            Class::Extend => false,
            Class::Joiner => false,
            Class::Pictograph => !before.joined,
            Class::Regional => !before.odd_regional,
            Class::Other => true,
        }
    }
}

impl Default for BreakState {
    fn default() -> (r: BreakState)
        ensures
            r == BreakState::start(),
    {
        BreakState::start()
    }
}

} // verus!
