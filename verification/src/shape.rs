use vstd::prelude::*;

use crate::piece::Tetris;

verus! {

/// Number of kinds of pieces (T, S, Z, J, L, I, O).
pub const KINDS: usize = 7;

/// Number of squares in every piece.
pub const SQUARES: usize = 4;

/// Offset of square `cell` of a piece of kind `kind` from the piece's
/// rotation centre, as (row, column), before any rotation.
/// Square 0 is the centre itself for every kind.
pub open spec fn spec_offset(kind: int, cell: int) -> (int, int) {
    if kind == 0 {
        // T
        if cell == 0 { (0, 0) } else if cell == 1 { (0, -1) } else if cell == 2 { (0, 1) } else { (1, 0) }
    } else if kind == 1 {
        // S
        if cell == 0 { (0, 0) } else if cell == 1 { (0, 1) } else if cell == 2 { (1, 0) } else { (1, -1) }
    } else if kind == 2 {
        // Z
        if cell == 0 { (0, 0) } else if cell == 1 { (0, -1) } else if cell == 2 { (1, 0) } else { (1, 1) }
    } else if kind == 3 {
        // J
        if cell == 0 { (0, 0) } else if cell == 1 { (-1, 0) } else if cell == 2 { (1, 0) } else { (1, -1) }
    } else if kind == 4 {
        // L
        if cell == 0 { (0, 0) } else if cell == 1 { (-1, 0) } else if cell == 2 { (1, 0) } else { (1, 1) }
    } else if kind == 5 {
        // I
        if cell == 0 { (0, 0) } else if cell == 1 { (-1, 0) } else if cell == 2 { (1, 0) } else { (-2, 0) }
    } else {
        // O
        if cell == 0 { (0, 0) } else if cell == 1 { (1, 0) } else if cell == 2 { (0, 1) } else { (1, 1) }
    }
}

/// The offset of a square, as the pair of `i32` that the piece table holds.
pub fn shape_point(kind: usize, cell: usize) -> (p: [i32; 2])
    requires
        kind < KINDS,
        cell < SQUARES,
    ensures
        p[0] as int == spec_offset(kind as int, cell as int).0,
        p[1] as int == spec_offset(kind as int, cell as int).1,
{
    let (a, b): (i32, i32) = match kind {
        0 => match cell { 0 => (0, 0), 1 => (0, -1), 2 => (0, 1), _ => (1, 0) },
        1 => match cell { 0 => (0, 0), 1 => (0, 1), 2 => (1, 0), _ => (1, -1) },
        2 => match cell { 0 => (0, 0), 1 => (0, -1), 2 => (1, 0), _ => (1, 1) },
        3 => match cell { 0 => (0, 0), 1 => (-1, 0), 2 => (1, 0), _ => (1, -1) },
        4 => match cell { 0 => (0, 0), 1 => (-1, 0), 2 => (1, 0), _ => (1, 1) },
        5 => match cell { 0 => (0, 0), 1 => (-1, 0), 2 => (1, 0), _ => (-2, 0) },
        _ => match cell { 0 => (0, 0), 1 => (1, 0), 2 => (0, 1), _ => (1, 1) },
    };
    [a, b]
}

/// An offset (row, column) turned `direc` quarter turns clockwise on the
/// screen, where rows grow downward and columns rightward: a square to the
/// right of the centre goes below it (any value from 3 on counts as three
/// quarter turns).
pub open spec fn rotated(p: (int, int), direc: int) -> (int, int) {
    if direc == 0 {
        p
    } else if direc == 1 {
        (p.1, -p.0)
    } else if direc == 2 {
        (-p.0, -p.1)
    } else {
        (-p.1, p.0)
    }
}

/// Where the square with offset `p` of piece `t` lies in the well.
pub open spec fn spec_xt_yt(p: (int, int), t: Tetris) -> (int, int) {
    let r = rotated(p, t.direc as int);
    (t.position[0] + r.0, t.position[1] + r.1)
}

/// The arithmetic of `xt_yt` stays within `i32`: the negations it takes
/// and the two sums.
pub open spec fn xt_yt_fits(p: (int, int), t: Tetris) -> bool {
    let negations_fit = if t.direc == 0 {
        true
    } else if t.direc == 1 {
        p.0 != i32::MIN
    } else if t.direc == 2 {
        p.0 != i32::MIN && p.1 != i32::MIN
    } else {
        p.1 != i32::MIN
    };
    let r = spec_xt_yt(p, t);
    &&& negations_fit
    &&& i32::MIN <= r.0 <= i32::MAX
    &&& i32::MIN <= r.1 <= i32::MAX
}

/// Square `i` of piece `t` in the well, as (row, column).
pub open spec fn cell_of(t: Tetris, i: int) -> (int, int) {
    spec_xt_yt(spec_offset(t.kind as int, i), t)
}

/// Position in the well of the square with offset `points` of piece `t`:
/// the offset turned by the piece's direction, added to its position.
pub fn xt_yt(points: &[i32; 2], t: &Tetris) -> (r: (i32, i32))
    requires
        xt_yt_fits((points[0] as int, points[1] as int), *t),
    ensures
        r.0 as int == spec_xt_yt((points[0] as int, points[1] as int), *t).0,
        r.1 as int == spec_xt_yt((points[0] as int, points[1] as int), *t).1,
{
    let dx: i32 = match t.direc {
        0 => points[0],
        1 => points[1],
        2 => -points[0],
        _ => -points[1],
    };
    let x: i32 = t.position[0] + dx;
    let dy: i32 = match t.direc {
        0 => points[1],
        1 => -points[0],
        2 => -points[1],
        _ => points[0],
    };
    let y: i32 = t.position[1] + dy;
    (x, y)
}

/// Turning a piece a quarter clockwise turns each of its squares a quarter
/// clockwise on the screen about the piece's centre: a square `dx` rows
/// below and `dy` columns right of the centre goes to `dy` rows below and
/// `dx` columns left of it.
pub proof fn lemma_turn_rotates_squares(t: Tetris, i: int)
    requires
        t.direc < 4,
    ensures
        ({
            let before = cell_of(t, i);
            let after = cell_of(t.turned(), i);
            let rel = (before.0 - t.position[0], before.1 - t.position[1]);
            (after.0 - t.position[0], after.1 - t.position[1]) == (rel.1, -rel.0)
        }),
{
}

} // verus!
