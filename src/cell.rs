use vstd::prelude::*;
use vstd::string::*;

verus! {

/// The two states a cell can be in.
#[derive(Clone, Copy, PartialEq, Eq, Structural, Debug)]
pub enum CellKind {
    ALIVE,
    DEAD,
}

/// One position of the grid.
#[derive(Clone, Copy, PartialEq, Eq, Structural, Debug)]
pub struct Cell {
    pub kind: CellKind,
}

/// The successor state under the B3/S23 rule: a live cell survives with two
/// or three live neighbours, a dead cell is born with exactly three, and every
/// other cell ends up dead.
pub open spec fn next_kind(kind: CellKind, alive_neighbours: int) -> CellKind {
    if alive_neighbours == 3 || (kind == CellKind::ALIVE && alive_neighbours == 2) {
        CellKind::ALIVE
    } else {
        CellKind::DEAD
    }
}

/// The two-character glyph of a state: a filled or an empty square, then a space.
pub open spec fn glyph(kind: CellKind) -> Seq<char> {
    match kind {
        CellKind::ALIVE => seq!['\u{25fc}', ' '],
        CellKind::DEAD => seq!['\u{25fb}', ' '],
    }
}

/// Number of faces of the die rolled for a new cell.
pub const ROLL_FACES: u32 = 5;

/// Relies on rand::thread_rng and rand::Rng::gen_range (rand 0.7): a value
/// drawn from `[0, bound)`; `gen_range` panics when the range is empty.
#[verifier::external_body]
fn roll_below(bound: u32) -> (r: u32)
    requires
        bound > 0,
    ensures
        r < bound,
{
    rand::Rng::gen_range(&mut rand::thread_rng(), 0, bound)
}

impl Cell {
    /// A cell with a random state: alive with probability one in five.
    pub fn new() -> (c: Cell) {
        let roll = roll_below(ROLL_FACES);
        Cell::from_roll(roll)
    }

    /// The cell that a roll of the five-faced die gives: alive on the highest
    /// face, dead otherwise.
    pub fn from_roll(roll: u32) -> (c: Cell)
        ensures
            c.kind == (if roll == ROLL_FACES - 1 { CellKind::ALIVE } else { CellKind::DEAD }),
    {
        if roll == ROLL_FACES - 1 {
            Cell { kind: CellKind::ALIVE }
        } else {
            Cell { kind: CellKind::DEAD }
        }
    }

    /// Moves the cell to its next state, given how many of its neighbours are
    /// alive in the current generation.
    pub fn next(&mut self, alive_neighbours: i32)
        ensures
            final(self).kind == next_kind(old(self).kind, alive_neighbours as int),
            old(self).kind == CellKind::ALIVE ==> (final(self).kind == CellKind::ALIVE <==> (
            alive_neighbours == 2 || alive_neighbours == 3)),
            old(self).kind == CellKind::DEAD ==> (final(self).kind == CellKind::ALIVE <==> alive_neighbours
                == 3),
    {
        self.kind = match self.kind {
            // Underpopulation.
            CellKind::ALIVE if alive_neighbours < 2 => CellKind::DEAD,
            // Survival.
            CellKind::ALIVE if alive_neighbours == 2 || alive_neighbours == 3 => CellKind::ALIVE,
            // Overpopulation.
            CellKind::ALIVE => CellKind::DEAD,
            // Reproduction.
            CellKind::DEAD if alive_neighbours == 3 => CellKind::ALIVE,
            CellKind::DEAD => CellKind::DEAD,
        };
    }

    /// The cell's glyph followed by a space.
    pub fn render(&self) -> (s: String)
        ensures
            s@ == glyph(self.kind),
    {
        let s = match self.kind {
            CellKind::ALIVE => String::from_str("\u{25fc} "),
            CellKind::DEAD => String::from_str("\u{25fb} "),
        };
        proof {
            reveal_strlit("\u{25fc} ");
            reveal_strlit("\u{25fb} ");
        }
        s
    }
}

} // verus!
