use vstd::prelude::*;

use crate::shape::{KINDS};

verus! {

/// A falling piece: its kind (0 to 6: T, S, Z, J, L, I, O), the position of
/// its rotation centre in the well as (row, column), and its direction
/// (0 as dealt, 1 to 3 clockwise quarter turns).
#[derive(Clone, Copy)]
pub struct Tetris {
    pub kind: usize,
    pub position: [i32; 2],
    pub direc: usize,
}

/// Row at which a new piece's centre starts, above the well.
pub const START_ROW: i32 = -2;

/// Column at which a new piece's centre starts.
pub const START_COLUMN: i32 = 5;

/// Calls `rand::random::<u8>()`, a byte drawn from the thread-local random
/// generator. Nothing is claimed of the result: every byte may come back,
/// and two calls may differ.
#[verifier::external_body]
fn random_byte() -> (b: u8) {
    rand::random::<u8>()
}

impl Tetris {
    /// A piece as dealt: valid kind and direction, at the start position.
    pub open spec fn is_fresh(self) -> bool {
        &&& self.kind < KINDS
        &&& self.direc < 4
        &&& self.position[0] == START_ROW
        &&& self.position[1] == START_COLUMN
    }

    /// The piece dealt for two random bytes: the kind is the first modulo 7,
    /// the direction the second modulo 4.
    pub fn from_bytes(kind_byte: u8, direc_byte: u8) -> (t: Tetris)
        ensures
            t.kind == kind_byte as usize % KINDS,
            t.direc == direc_byte as usize % 4,
            t.position[0] == START_ROW,
            t.position[1] == START_COLUMN,
            t.is_fresh(),
    {
        Tetris {
            kind: (kind_byte % 7) as usize,
            position: [START_ROW, START_COLUMN],
            direc: (direc_byte % 4) as usize,
        }
    }

    /// A new piece of random kind and direction at the start position.
    pub fn new() -> (t: Tetris)
        ensures
            t.is_fresh(),
    {
        let k = random_byte();
        let d = random_byte();
        Tetris::from_bytes(k, d)
    }

    /// The piece turned a quarter clockwise.
    pub open spec fn turned(self) -> Tetris {
        Tetris { direc: ((self.direc + 1) % 4) as usize, ..self }
    }

    /// The piece turned a quarter counter-clockwise.
    pub open spec fn unturned(self) -> Tetris {
        Tetris { direc: ((self.direc + 3) % 4) as usize, ..self }
    }

    /// Turns the piece a quarter clockwise.
    pub fn turn(&mut self)
        requires
            old(self).direc < usize::MAX,
        ensures
            *final(self) == old(self).turned(),
    {
        self.direc += 1;
        self.direc %= 4;
    }

    /// Turns the piece a quarter counter-clockwise.
    pub fn unturn(&mut self)
        requires
            old(self).direc <= usize::MAX - 3,
        ensures
            *final(self) == old(self).unturned(),
    {
        self.direc += 3;
        self.direc %= 4;
    }
}

/// Turning a piece and turning it back gives the piece again, in either
/// order, whenever its direction is one of the four.
pub proof fn lemma_turn_unturn(t: Tetris)
    requires
        t.direc < 4,
    ensures
        t.turned().unturned() == t,
        t.unturned().turned() == t,
{
}

/// Four quarter turns bring a piece back to where it was.
pub proof fn lemma_four_turns(t: Tetris)
    requires
        t.direc < 4,
    ensures
        t.turned().turned().turned().turned() == t,
{
}

} // verus!
