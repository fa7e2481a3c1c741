//! One player's controls for one step, packed into a byte.

use vstd::prelude::*;

verus! {

/// Bit set while the jump / hover control is held.
pub const INPUT_JUMP: u8 = 1;

/// Bit set while the turn-left control is held.
pub const INPUT_LEFT: u8 = 2;

/// Bit set while the turn-right control is held.
pub const INPUT_RIGHT: u8 = 4;

/// Bit set while the dash control is held.
pub const INPUT_DASH: u8 = 8;

/// The controls of one player for one step. Only the four lowest bits carry
/// meaning; the others are ignored by every reader.
#[derive(Clone, Copy, Debug, PartialEq, Eq, Structural)]
pub struct Input(pub u8);

/// Which of the four controls are held on the local keyboard.
#[derive(Clone, Copy, Debug, PartialEq, Eq, Structural)]
pub struct Controls {
    pub left: bool,
    pub right: bool,
    pub jump: bool,
    pub dash: bool,
}

/// The byte that stands for a set of held controls.
pub open spec fn pack(c: Controls) -> u8 {
    ((if c.jump { INPUT_JUMP } else { 0u8 })
        | (if c.left { INPUT_LEFT } else { 0u8 })
        | (if c.right { INPUT_RIGHT } else { 0u8 })
        | (if c.dash { INPUT_DASH } else { 0u8 }))
}

impl Input {
    pub open spec fn jump_spec(self) -> bool {
        self.0 & INPUT_JUMP != 0
    }

    pub open spec fn left_spec(self) -> bool {
        self.0 & INPUT_LEFT != 0
    }

    pub open spec fn right_spec(self) -> bool {
        self.0 & INPUT_RIGHT != 0
    }

    pub open spec fn dash_spec(self) -> bool {
        self.0 & INPUT_DASH != 0
    }

    /// The controls this input stands for.
    pub open spec fn controls_spec(self) -> Controls {
        Controls {
            left: self.left_spec(),
            right: self.right_spec(),
            jump: self.jump_spec(),
            dash: self.dash_spec(),
        }
    }

    /// The input with no control held.
    pub fn neutral() -> (r: Input)
        ensures
            r.0 == 0,
            r.controls_spec() == (Controls { left: false, right: false, jump: false, dash: false }),
    {
        assert(0u8 & 1u8 == 0 && 0u8 & 2u8 == 0 && 0u8 & 4u8 == 0 && 0u8 & 8u8 == 0)
            by (bit_vector);
        Input(0)
    }

    /// Packs held controls into an input.
    pub fn from_controls(c: Controls) -> (r: Input)
        ensures
            r.0 == pack(c),
            r.0 < 16,
            r.controls_spec() == c,
    {
        let j: u8 = if c.jump { INPUT_JUMP } else { 0 };
        let l: u8 = if c.left { INPUT_LEFT } else { 0 };
        let t: u8 = if c.right { INPUT_RIGHT } else { 0 };
        let d: u8 = if c.dash { INPUT_DASH } else { 0 };
        let bits: u8 = j | l | t | d;
        assert((j == 0 || j == 1) && (l == 0 || l == 2) && (t == 0 || t == 4) && (d == 0 || d == 8)
            ==> ((j | l | t | d) & 1 != 0) == (j == 1)
                && ((j | l | t | d) & 2 != 0) == (l == 2)
                && ((j | l | t | d) & 4 != 0) == (t == 4)
                && ((j | l | t | d) & 8 != 0) == (d == 8)
                && (j | l | t | d) < 16) by (bit_vector);
        Input(bits)
    }

    #[verifier::when_used_as_spec(jump_spec)]
    pub fn jump(self) -> (r: bool)
        ensures
            r == self.jump_spec(),
    {
        self.0 & INPUT_JUMP != 0
    }

    #[verifier::when_used_as_spec(left_spec)]
    pub fn left(self) -> (r: bool)
        ensures
            r == self.left_spec(),
    {
        self.0 & INPUT_LEFT != 0
    }

    #[verifier::when_used_as_spec(right_spec)]
    pub fn right(self) -> (r: bool)
        ensures
            r == self.right_spec(),
    {
        self.0 & INPUT_RIGHT != 0
    }

    #[verifier::when_used_as_spec(dash_spec)]
    pub fn dash(self) -> (r: bool)
        ensures
            r == self.dash_spec(),
    {
        self.0 & INPUT_DASH != 0
    }

    /// Unpacks the four controls.
    pub fn controls(self) -> (r: Controls)
        ensures
            r == self.controls_spec(),
    {
        Controls { left: self.left(), right: self.right(), jump: self.jump(), dash: self.dash() }
    }
}

/// What every local player sends for this step: the keyboard's controls,
/// once for each local handle, in the order of `local_players`.
pub open spec fn local_inputs(c: Controls, local_players: Seq<usize>) -> Seq<(usize, Input)> {
    Seq::new(local_players.len(), |i: int| (local_players[i], Input(pack(c))))
}

/// Builds the inputs of the local players from the keyboard's state. All
/// local players share one keyboard, so each gets the same byte.
pub fn read_local_inputs(c: Controls, local_players: &Vec<usize>) -> (r: Vec<(usize, Input)>)
    ensures
        r@ == local_inputs(c, local_players@),
{
    let input = Input::from_controls(c);
    let mut out: Vec<(usize, Input)> = Vec::new();
    let mut i: usize = 0;
    while i < local_players.len()
        invariant
            i <= local_players.len(),
            input.0 == pack(c),
            out@ == local_inputs(c, local_players@.take(i as int)),
        decreases local_players.len() - i,
    {
        out.push((local_players[i], input));
        i = i + 1;
        assert(out@ =~= local_inputs(c, local_players@.take(i as int)));
    }
    assert(local_players@.take(i as int) =~= local_players@);
    out
}

} // verus!
