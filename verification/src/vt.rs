//! What a byte-stream parser hands the screen: control-sequence parameters, and the
//! callbacks it makes.
use vstd::prelude::*;

verus! {

/// The parameters of a control sequence, each with its sub-parameters.
#[derive(Debug)]
pub struct Params {
    pub items: Vec<Vec<u16>>,
}

impl View for Params {
    type V = Seq<Seq<u16>>;

    open spec fn view(&self) -> Seq<Seq<u16>> {
        self.items@.map_values(|p: Vec<u16>| p@)
    }
}

/// The leading value of parameter `i`, 0 where it is absent.
pub open spec fn value_at(params: Seq<Seq<u16>>, i: int) -> u16 {
    if 0 <= i < params.len() {
        lead(params[i])
    } else {
        0
    }
}

/// The leading value of a parameter, 0 where it is empty.
pub open spec fn lead(param: Seq<u16>) -> u16 {
    if param.len() > 0 {
        param[0]
    } else {
        0
    }
}

/// Sub-parameter `i`, 0 where it is absent.
pub open spec fn sub_at(param: Seq<u16>, i: int) -> u16 {
    if 0 <= i < param.len() {
        param[i]
    } else {
        0
    }
}

impl Params {
    /// The parameters made of these values and sub-values.
    pub fn from_items(items: Vec<Vec<u16>>) -> (p: Params)
        ensures
            p@ == items@.map_values(|p: Vec<u16>| p@),
    {
        Params { items }
    }

    /// Whether there are none.
    pub fn is_empty(&self) -> (r: bool)
        ensures
            r == (self@.len() == 0),
    {
        self.items.len() == 0
    }

    /// How many there are.
    pub fn len(&self) -> (r: usize)
        ensures
            r == self@.len(),
    {
        self.items.len()
    }

    /// Parameter `i` with its sub-parameters.
    pub fn get(&self, i: usize) -> (r: Option<&[u16]>)
        ensures
            r is Some <==> i < self@.len(),
            r matches Some(p) ==> p@ == self@[i as int],
    {
        if i < self.items.len() {
            Some(self.items[i].as_slice())
        } else {
            None
        }
    }

    /// The leading value of parameter `i`, 0 where it is absent.
    pub fn value(&self, i: usize) -> (r: u16)
        ensures
            r == value_at(self@, i as int),
    {
        if i < self.items.len() && self.items[i].len() > 0 {
            self.items[i][0]
        } else {
            0
        }
    }
}

/// The callbacks of a byte-stream parser: what it read, not what it means.
pub trait Perform {
    /// The performer is in a state it can go on from.
    spec fn ready(&self) -> bool;

    /// One printable character.
    fn print(&mut self, c: char)
        requires
            old(self).ready(),
        ensures
            final(self).ready(),
    ;

    /// A run of printable characters.
    fn print_run(&mut self, chars: &[char])
        requires
            old(self).ready(),
        ensures
            final(self).ready(),
    ;

    /// A run of printable ASCII.
    fn print_ascii(&mut self, bytes: &[u8])
        requires
            old(self).ready(),
            forall|i: int| 0 <= i < bytes@.len() ==> 0x20 <= #[trigger] bytes@[i] <= 0x7e,
        ensures
            final(self).ready(),
    ;

    /// One control byte.
    fn execute(&mut self, byte: u8)
        requires
            old(self).ready(),
        ensures
            final(self).ready(),
    ;

    /// A control sequence: its parameters, intermediates, private marker and final byte.
    fn csi_dispatch(&mut self, params: &Params, intermediates: &[u8], private: u8, action: u8)
        requires
            old(self).ready(),
        ensures
            final(self).ready(),
    ;

    /// An escape sequence.
    fn esc_dispatch(&mut self, intermediates: &[u8], byte: u8)
        requires
            old(self).ready(),
        ensures
            final(self).ready(),
    ;

    /// A device control string with its payload.
    fn dcs_dispatch(&mut self, params: &Params, intermediates: &[u8], action: u8, data: &[u8])
        requires
            old(self).ready(),
        ensures
            final(self).ready(),
    ;

    /// An operating-system command and how it was terminated.
    fn osc_dispatch(&mut self, data: &[u8], bel_terminated: bool)
        requires
            old(self).ready(),
        ensures
            final(self).ready(),
    ;
}

} // verus!
