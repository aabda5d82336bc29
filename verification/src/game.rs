use vstd::prelude::*;

use crate::board::{Board, ROWS, COLS, grid, cleared, full_rows, clear_full_rows, empty_row};
use crate::piece::Tetris;
use crate::shape::{KINDS, SQUARES, cell_of, spec_offset, shape_point, xt_yt};
use crate::screen::{InterFace, picture, squares_fit, template};

verus! {

broadcast use vstd::array::group_array_axioms;

/// Where the game is: over (or not begun), running, or paused.
#[derive(PartialEq, Eq, Structural, Clone, Copy)]
pub enum GameState {
    Stopped,
    Playing,
    Pausing,
}

/// A whole game: its state, the well, the falling piece, the piece to come,
/// and the score.
pub struct Game {
    pub state: GameState,
    pub interface: InterFace,
    pub blockes: Board,
    pub curter: Tetris,
    pub nxtter: Tetris,
    pub scores: u128,
}

/// Every square of piece `t` lies in a column of the well and above its
/// floor, its kind and direction are valid, and its row is far enough from
/// `i32::MIN` for every turn of it to be computed in `i32`.
pub open spec fn in_well(t: Tetris) -> bool {
    &&& t.kind < KINDS
    &&& t.direc < 4
    &&& i32::MIN + 2 <= t.position[0]
    &&& forall|i: int| 0 <= i < SQUARES ==> {
        &&& #[trigger] cell_of(t, i).0 < ROWS
        &&& 0 <= cell_of(t, i).1 < COLS
    }
}

/// Square (x, y) is open to a piece: above the well, or inside it and empty.
pub open spec fn square_free(b: Board, x: int, y: int) -> bool {
    x < 0 || (x < ROWS && b[x][y] == 0)
}

/// A piece may stand on (x, y): the column is in the well and the square is
/// open.
pub open spec fn square_ok(b: Board, x: int, y: int) -> bool {
    0 <= y < COLS && square_free(b, x, y)
}

/// The square below square `i` of `t` is not open.
pub open spec fn blocked(b: Board, t: Tetris, i: int) -> bool {
    !square_free(b, cell_of(t, i).0 + 1, cell_of(t, i).1)
}

/// One of the first `n` squares of `t` is blocked below.
pub open spec fn blocked_before(b: Board, t: Tetris, n: int) -> bool {
    ||| (n > 0 && blocked(b, t, 0))
    ||| (n > 1 && blocked(b, t, 1))
    ||| (n > 2 && blocked(b, t, 2))
    ||| (n > 3 && blocked(b, t, 3))
}

/// The piece cannot fall one row further.
pub open spec fn landed(b: Board, t: Tetris) -> bool {
    blocked_before(b, t, 4)
}

/// Square `i` of `t` lies above the well or left of it.
pub open spec fn escapes(t: Tetris, i: int) -> bool {
    cell_of(t, i).0 < 0 || cell_of(t, i).1 < 0
}

/// The first square of `t` that lies outside the well, or 4 if none does.
pub open spec fn first_escape(t: Tetris) -> int {
    if escapes(t, 0) {
        0
    } else if escapes(t, 1) {
        1
    } else if escapes(t, 2) {
        2
    } else if escapes(t, 3) {
        3
    } else {
        4
    }
}

/// One of the first `n` squares of `t` is square (x, y).
pub open spec fn covers(t: Tetris, n: int, x: int, y: int) -> bool {
    ||| (n > 0 && cell_of(t, 0) == (x, y))
    ||| (n > 1 && cell_of(t, 1) == (x, y))
    ||| (n > 2 && cell_of(t, 2) == (x, y))
    ||| (n > 3 && cell_of(t, 3) == (x, y))
}

/// The rows `g` with the first `n` squares of `t` filled in.
pub open spec fn stamped(g: Seq<Seq<u8>>, t: Tetris, n: int) -> Seq<Seq<u8>> {
    Seq::new(
        g.len(),
        |x: int| Seq::new(g[x].len(), |y: int| if covers(t, n, x, y) { 1u8 } else { g[x][y] }),
    )
}

/// Every square of `t` may stand where it is in `b`.
pub open spec fn placeable(b: Board, t: Tetris) -> bool {
    forall|i: int| 0 <= i < SQUARES ==> square_ok(b, #[trigger] cell_of(t, i).0, cell_of(t, i).1)
}

/// Every square of `t`, moved `dy` columns, may stand there in `b`.
pub open spec fn placeable_shifted(b: Board, t: Tetris, dy: int) -> bool {
    forall|i: int| 0 <= i < SQUARES ==> square_ok(b, #[trigger] cell_of(t, i).0, cell_of(t, i).1 + dy)
}

/// What one step down adds to the score: nothing unless the piece lands
/// inside the well; then 20 to the power of the number of rows it fills,
/// when it fills any.
pub open spec fn down_gain(g: Game) -> int {
    if !landed(g.blockes, g.curter) || first_escape(g.curter) < 4 {
        0
    } else {
        let c = full_rows(stamped(grid(g.blockes), g.curter, 4));
        if c > 0 {
            vstd::arithmetic::power::pow(20, c as nat)
        } else {
            0
        }
    }
}

/// Every offset of the piece table is at most two squares from the centre,
/// and square 0 is the centre.
pub proof fn lemma_offsets_small(kind: int, i: int)
    requires
        0 <= kind < KINDS,
        0 <= i < SQUARES,
    ensures
        -2 <= spec_offset(kind, i).0 <= 2,
        -2 <= spec_offset(kind, i).1 <= 2,
        i == 0 ==> spec_offset(kind, i) == (0int, 0int),
{
}

/// A piece as dealt lies in the well.
pub proof fn lemma_fresh_in_well(t: Tetris)
    requires
        t.is_fresh(),
    ensures
        in_well(t),
{
    assert forall|i: int| 0 <= i < SQUARES implies #[trigger] cell_of(t, i).0 < ROWS && 0 <= cell_of(t, i).1 < COLS by {
        lemma_offsets_small(t.kind as int, i);
    }
}

/// The squares of a piece in the well, turned any way or shifted within
/// `i32`, are computed without overflow.
proof fn lemma_in_well_fits(t: Tetris, i: int)
    requires
        in_well(t),
        0 <= i < SQUARES,
    ensures
        cell_of(t, 0) == (t.position[0] as int, t.position[1] as int),
        t.position[0] < ROWS,
        0 <= t.position[1] < COLS,
        i32::MIN <= cell_of(t, i).0 <= i32::MAX - 1,
        0 <= cell_of(t, i).1 < COLS,
        i32::MIN <= cell_of(t.turned(), i).0 <= i32::MAX,
        -2 <= cell_of(t.turned(), i).1 <= COLS + 2,
{
    lemma_offsets_small(t.kind as int, i);
    lemma_offsets_small(t.kind as int, 0);
    assert(cell_of(t, 0).0 < ROWS);
}

/// The centre of a piece in the well is square 0, in a column of the well.
pub proof fn lemma_in_well_position(t: Tetris)
    requires
        in_well(t),
    ensures
        0 <= t.position[1] < COLS,
        t.position[0] < ROWS,
{
    lemma_in_well_fits(t, 0);
}

/// A game whose pieces are where play can reach can always be shown: the
/// falling piece's squares can be placed and the next piece has a kind.
pub proof fn lemma_game_can_be_shown(g: Game)
    requires
        g.wf(),
    ensures
        squares_fit(g.curter),
        g.nxtter.kind < KINDS,
{
    let t = g.curter;
    assert forall|i: int| 0 <= i < SQUARES implies crate::shape::xt_yt_fits(#[trigger] spec_offset(t.kind as int, i), t) by {
        lemma_in_well_fits(t, i);
    }
}

/// The first `n + 1` squares cover (x, y) when the first `n` do or square
/// `n` is (x, y).
proof fn lemma_covers_step(t: Tetris, n: int, x: int, y: int)
    requires
        0 <= n < SQUARES,
    ensures
        covers(t, n + 1, x, y) == (covers(t, n, x, y) || cell_of(t, n) == (x, y)),
{
}

/// Whether piece `t` cannot fall one row further in well `b`.
fn is_landed(b: &Board, t: &Tetris) -> (r: bool)
    requires
        in_well(*t),
    ensures
        r == landed(*b, *t),
{
    let mut i: usize = 0;
    while i < SQUARES
        invariant
            in_well(*t),
            i <= SQUARES,
            !blocked_before(*b, *t, i as int),
        decreases SQUARES - i,
    {
        let points = shape_point(t.kind, i);
        proof {
            lemma_in_well_fits(*t, i as int);
        }
        let (xt, yt) = xt_yt(&points, t);
        let xt = xt + 1;
        if !(xt < 0 || xt < 20 && b[xt as usize][yt as usize] == 0) {
            return true;
        }
        i += 1;
    }
    false
}

/// Fills in the squares of piece `t`, in order, up to the first one
/// outside the well, and returns that square's index (4 when all four are
/// inside).
fn lock_squares(b: &mut Board, t: &Tetris) -> (k: usize)
    requires
        in_well(*t),
    ensures
        k == first_escape(*t),
        grid(*final(b)) == stamped(grid(*old(b)), *t, k as int),
{
    let mut i: usize = 0;
    while i < SQUARES
        invariant
            in_well(*t),
            i <= SQUARES,
            forall|j: int| 0 <= j < i ==> !escapes(*t, j),
            forall|x: int, y: int| 0 <= x < ROWS && 0 <= y < COLS ==>
                #[trigger] b[x][y] == if covers(*t, i as int, x, y) {
                    1u8
                } else {
                    old(b)[x][y]
                },
        decreases SQUARES - i,
    {
        let points = shape_point(t.kind, i);
        proof {
            lemma_in_well_fits(*t, i as int);
        }
        let (xt, yt) = xt_yt(&points, t);
        if xt < 0 || yt < 0 {
            proof {
                assert(grid(*b) =~~= stamped(grid(*old(b)), *t, i as int));
            }
            return i;
        }
        let ghost before = *b;
        b[xt as usize][yt as usize] = 1;
        proof {
            let tt = *t;
            assert forall|x: int, y: int| 0 <= x < ROWS && 0 <= y < COLS implies
                #[trigger] b[x][y] == if covers(tt, i + 1, x, y) {
                    1u8
                } else {
                    old(b)[x][y]
                } by {
                lemma_covers_step(tt, i as int, x, y);
                if x == xt && y == yt {
                } else {
                    assert(b[x][y] == before[x][y]);
                }
            }
        }
        i += 1;
    }
    proof {
        assert(grid(*b) =~~= stamped(grid(*old(b)), *t, 4));
    }
    i
}

/// Only the falling piece may differ between `g` and `h`.
pub open spec fn same_but_piece(g: Game, h: Game) -> bool {
    &&& h.state == g.state
    &&& h.interface == g.interface
    &&& h.blockes == g.blockes
    &&& h.nxtter == g.nxtter
    &&& h.scores == g.scores
}

/// `h` is `g` with the falling piece `dx` rows lower and `dy` columns
/// further right.
pub open spec fn piece_moved(g: Game, h: Game, dx: int, dy: int) -> bool {
    &&& same_but_piece(g, h)
    &&& h.curter.kind == g.curter.kind
    &&& h.curter.direc == g.curter.direc
    &&& h.curter.position[0] == g.curter.position[0] + dx
    &&& h.curter.position[1] == g.curter.position[1] + dy
}

/// One step down ends the game: the piece lands with a square still
/// outside the well.
pub open spec fn ends_game(g: Game) -> bool {
    landed(g.blockes, g.curter) && first_escape(g.curter) < 4
}

/// `h` is what one step down makes of `g`: the piece falls a row if it
/// can; if it lands with a square outside the well, the squares before that
/// one are filled in and the game stops; if it lands inside the well, its
/// squares are filled in, the full rows cleared, the score raised by
/// `down_gain`, the next piece falls from the top and a fresh one is dealt.
pub open spec fn down_post(g: Game, h: Game) -> bool {
    if !landed(g.blockes, g.curter) {
        piece_moved(g, h, 1, 0)
    } else if first_escape(g.curter) < 4 {
        &&& h.state == GameState::Stopped
        &&& h.interface == g.interface
        &&& grid(h.blockes) == stamped(grid(g.blockes), g.curter, first_escape(g.curter))
        &&& h.scores == g.scores
        &&& h.curter == g.curter
        &&& h.nxtter == g.nxtter
    } else {
        &&& h.state == g.state
        &&& h.interface == g.interface
        &&& grid(h.blockes) == cleared(stamped(grid(g.blockes), g.curter, 4))
        &&& h.scores == g.scores + down_gain(g)
        &&& h.curter == g.nxtter
        &&& h.nxtter.is_fresh()
    }
}

/// `h` is what moving `moved` columns sideways makes of `g`: the piece
/// moves if all its squares may stand there, and nothing changes otherwise.
pub open spec fn vertical_post(g: Game, h: Game, moved: int) -> bool {
    if placeable_shifted(g.blockes, g.curter, moved) {
        piece_moved(g, h, 0, moved)
    } else {
        h == g
    }
}

/// `h` is what a quarter turn makes of `g`: the piece turns if all the
/// squares of the turned piece may stand where they fall, and nothing
/// changes otherwise.
pub open spec fn turn_post(g: Game, h: Game) -> bool {
    if placeable(g.blockes, g.curter.turned()) {
        &&& same_but_piece(g, h)
        &&& h.curter == g.curter.turned()
    } else {
        h == g
    }
}

impl Game {
    /// The pieces are where play can reach: the falling one lies in the
    /// well and the next one is as dealt.
    pub open spec fn wf(self) -> bool {
        &&& in_well(self.curter)
        &&& self.nxtter.is_fresh()
    }

    /// A game not yet begun: empty well, no score, two pieces dealt, the
    /// screen layout drawn.
    pub fn new() -> (g: Game)
        ensures
            g.wf(),
            g.state == GameState::Stopped,
            g.interface@ == template(),
            grid(g.blockes) == Seq::new(ROWS as nat, |x: int| empty_row()),
            g.curter.is_fresh(),
            g.scores == 0,
    {
        let g = Game {
            state: GameState::Stopped,
            interface: InterFace::new(),
            blockes: [[0u8; 10]; 20],
            curter: Tetris::new(),
            nxtter: Tetris::new(),
            scores: 0,
        };
        proof {
            lemma_fresh_in_well(g.curter);
            assert(grid(g.blockes) =~~= Seq::new(ROWS as nat, |x: int| empty_row()));
        }
        g
    }

    /// The picture of the game.
    pub fn show_all(&self) -> (frame: Vec<Vec<char>>)
        requires
            squares_fit(self.curter),
            self.nxtter.kind < KINDS,
        ensures
            crate::frame::table(frame) == picture(
                self.interface@,
                self.curter,
                self.nxtter,
                self.blockes,
                self.state,
                self.scores,
            ),
    {
        self.interface.show_frame(&self.curter, &self.nxtter, &self.blockes, &self.state, self.scores)
    }

    /// Moves the falling piece one row down; when it cannot fall, fixes it
    /// in the well: if a square of it is still outside the well the game is
    /// over (the squares before that one are filled in); otherwise the full
    /// rows are cleared, the score grows by 20 to the power of their number,
    /// the next piece starts to fall and a new next piece is dealt.
    /// Returns whether the game has just ended.
    pub fn down(&mut self) -> (game_over: bool)
        requires
            old(self).wf(),
            old(self).scores + down_gain(*old(self)) <= u128::MAX,
        ensures
            final(self).wf(),
            game_over == ends_game(*old(self)),
            down_post(*old(self), *final(self)),
    {
        if is_landed(&self.blockes, &self.curter) {
            let k = lock_squares(&mut self.blockes, &self.curter);
            if k < SQUARES {
                self.state = GameState::Stopped;
                return true;
            }
            let cleanpath = clear_full_rows(&mut self.blockes);
            if cleanpath > 0 {
                self.scores += power_of_twenty(cleanpath);
            }
            std::mem::swap(&mut self.curter, &mut self.nxtter);
            self.nxtter = Tetris::new();
            proof {
                lemma_fresh_in_well(self.curter);
            }
            false
        } else {
            let ghost t = self.curter;
            self.curter.position[0] += 1;
            proof {
                let t2 = self.curter;
                assert forall|i: int| 0 <= i < SQUARES implies #[trigger] cell_of(t2, i).0 < ROWS
                    && 0 <= cell_of(t2, i).1 < COLS by {
                    lemma_in_well_fits(t, i);
                    assert(!blocked(self.blockes, t, i));
                    assert(cell_of(t2, i) == (cell_of(t, i).0 + 1, cell_of(t, i).1));
                }
            }
            false
        }
    }

    /// Whether the score after `down` fits in a `u128`, which `down`
    /// requires: computes on a copy of the well what `down` would add.
    pub fn down_fits_score(&self) -> (fits: bool)
        requires
            self.wf(),
        ensures
            fits == (self.scores + down_gain(*self) <= u128::MAX),
    {
        if !is_landed(&self.blockes, &self.curter) {
            return true;
        }
        let mut trial: Board = self.blockes;
        let k = lock_squares(&mut trial, &self.curter);
        if k < SQUARES {
            return true;
        }
        let count = clear_full_rows(&mut trial);
        if count == 0 {
            return true;
        }
        let gain = power_of_twenty(count);
        self.scores.checked_add(gain).is_some()
    }

    /// Moves the falling piece `moved` columns sideways if every square of
    /// it may stand there; otherwise leaves the game as it is.
    pub fn vertical(&mut self, moved: i32)
        requires
            in_well(old(self).curter),
            old(self).curter.position[1] + moved <= i32::MAX,
        ensures
            in_well(final(self).curter),
            vertical_post(*old(self), *final(self), moved as int),
    {
        let mut i: usize = 0;
        proof {
            lemma_in_well_fits(self.curter, 0);
        }
        while i < SQUARES
            invariant
                in_well(self.curter),
                *self == *old(self),
                i <= SQUARES,
                old(self).curter.position[1] + moved <= i32::MAX,
                i > 0 ==> moved < COLS,
                forall|j: int| 0 <= j < i ==> square_ok(
                    self.blockes,
                    #[trigger] cell_of(self.curter, j).0,
                    cell_of(self.curter, j).1 + moved,
                ),
            decreases SQUARES - i,
        {
            let points = shape_point(self.curter.kind, i);
            proof {
                lemma_in_well_fits(self.curter, i as int);
                lemma_in_well_fits(self.curter, 0);
            }
            let (xt, yt) = xt_yt(&points, &self.curter);
            let yt = yt + moved;
            if (yt < 0 || yt >= 10) || !(xt < 0 || xt < 20 && self.blockes[xt as usize][yt as usize] == 0) {
                return;
            }
            i += 1;
        }
        let ghost t = self.curter;
        proof {
            lemma_in_well_fits(t, 0);
        }
        self.curter.position[1] += moved;
        proof {
            let t2 = self.curter;
            assert forall|i: int| 0 <= i < SQUARES implies #[trigger] cell_of(t2, i).0 < ROWS
                && 0 <= cell_of(t2, i).1 < COLS by {
                assert(cell_of(t2, i) == (cell_of(t, i).0, cell_of(t, i).1 + moved));
            }
        }
    }

    /// Turns the falling piece a quarter clockwise if every square of the
    /// turned piece may stand where it falls; otherwise leaves the game as
    /// it is.
    pub fn turn(&mut self)
        requires
            in_well(old(self).curter),
        ensures
            in_well(final(self).curter),
            turn_post(*old(self), *final(self)),
    {
        let ghost t0 = self.curter;
        self.curter.turn();
        let mut i: usize = 0;
        while i < SQUARES
            invariant
                in_well(t0),
                t0 == old(self).curter,
                self.curter == t0.turned(),
                self.interface == old(self).interface,
                self.blockes == old(self).blockes,
                self.state == old(self).state,
                self.nxtter == old(self).nxtter,
                self.scores == old(self).scores,
                i <= SQUARES,
                forall|j: int| 0 <= j < i ==> square_ok(
                    self.blockes,
                    #[trigger] cell_of(self.curter, j).0,
                    cell_of(self.curter, j).1,
                ),
            decreases SQUARES - i,
        {
            let points = shape_point(self.curter.kind, i);
            proof {
                lemma_in_well_fits(t0, i as int);
            }
            let (xt, yt) = xt_yt(&points, &self.curter);
            if (yt < 0 || yt >= 10) || !(xt < 0 || xt < 20 && self.blockes[xt as usize][yt as usize] == 0) {
                proof {
                    assert(!square_ok(self.blockes, cell_of(t0.turned(), i as int).0, cell_of(t0.turned(), i as int).1));
                }
                self.curter.unturn();
                proof {
                    crate::piece::lemma_turn_unturn(t0);
                }
                return;
            }
            i += 1;
        }
        proof {
            let t2 = self.curter;
            lemma_in_well_fits(t0, 0);
            assert forall|i: int| 0 <= i < SQUARES implies #[trigger] cell_of(t2, i).0 < ROWS
                && 0 <= cell_of(t2, i).1 < COLS by {
                assert(square_ok(self.blockes, cell_of(t2, i).0, cell_of(t2, i).1));
            }
        }
    }
}

/// 20 to the power `n`, for `n` up to the number of rows.
fn power_of_twenty(n: u32) -> (r: u128)
    requires
        n <= ROWS,
    ensures
        r == vstd::arithmetic::power::pow(20, n as nat),
{
    let mut r: u128 = 1;
    let mut i: u32 = 0;
    proof {
        vstd::arithmetic::power::lemma_pow0(20);
    }
    while i < n
        invariant
            i <= n <= ROWS,
            r == vstd::arithmetic::power::pow(20, i as nat),
        decreases n - i,
    {
        proof {
            reveal_with_fuel(vstd::arithmetic::power::pow, 21);
            vstd::arithmetic::power::lemma_pow_increases(20, (i + 1) as nat, 20);
        }
        r = r * 20;
        i += 1;
    }
    r
}

/// Every square of the well holds 0 or 1.
pub open spec fn binary_board(b: Board) -> bool {
    forall|x: int, y: int| 0 <= x < ROWS && 0 <= y < COLS ==> #[trigger] b[x][y] <= 1
}

/// A step down keeps the well made of 0 and 1: it only fills squares with
/// 1 and moves or empties rows.
pub proof fn lemma_down_keeps_binary(g: Game, h: Game)
    requires
        g.wf(),
        down_post(g, h),
        binary_board(g.blockes),
    ensures
        binary_board(h.blockes),
{
    let g0 = grid(g.blockes);
    if landed(g.blockes, g.curter) {
        let n = first_escape(g.curter);
        let s = stamped(g0, g.curter, if n < 4 { n } else { 4 });
        assert(crate::board::binary_rows(s)) by {
            assert forall|x: int, y: int| 0 <= x < s.len() && 0 <= y < s[x].len() implies #[trigger] s[x][y] <= 1 by {
                assert(g0[x][y] == g.blockes[x][y]);
            }
        }
        if n == 4 {
            crate::board::lemma_cleared_binary(s);
            crate::board::lemma_cleared_has_no_full_row(s);
        }
        assert forall|x: int, y: int| 0 <= x < ROWS && 0 <= y < COLS implies #[trigger] h.blockes[x][y] <= 1 by {
            assert(grid(h.blockes)[x][y] == h.blockes[x][y]);
            if n == 4 {
                assert(cleared(s)[x][y] <= 1);
            }
        }
    }
}

/// After a piece lands inside the well no row of the well is full.
pub proof fn lemma_no_full_row_after_landing(g: Game, h: Game)
    requires
        g.wf(),
        down_post(g, h),
        landed(g.blockes, g.curter),
        first_escape(g.curter) == 4,
    ensures
        forall|x: int| 0 <= x < ROWS ==> !crate::board::full_row(#[trigger] h.blockes[x]@),
{
    let s = stamped(grid(g.blockes), g.curter, 4);
    crate::board::lemma_cleared_has_no_full_row(s);
    assert forall|x: int| 0 <= x < ROWS implies !crate::board::full_row(#[trigger] h.blockes[x]@) by {
        assert(grid(h.blockes)[x] == h.blockes[x]@);
        assert(cleared(s)[x] == grid(h.blockes)[x]);
    }
}

/// A step down never lowers the score.
pub proof fn lemma_down_score_grows(g: Game, h: Game)
    requires
        down_post(g, h),
    ensures
        h.scores >= g.scores,
{
    if landed(g.blockes, g.curter) && first_escape(g.curter) == 4 {
        let c = full_rows(stamped(grid(g.blockes), g.curter, 4));
        if c > 0 {
            vstd::arithmetic::power::lemma_pow_positive(20, c as nat);
        }
    }
}

/// Every square of piece `t` is above the well or on an empty square.
pub open spec fn piece_clear(b: Board, t: Tetris) -> bool {
    forall|i: int| 0 <= i < SQUARES ==> square_free(b, #[trigger] cell_of(t, i).0, cell_of(t, i).1)
}

/// No row of the well is full.
pub open spec fn no_full_row(b: Board) -> bool {
    forall|x: int| 0 <= x < ROWS ==> !crate::board::full_row(#[trigger] b[x]@)
}

/// A piece as dealt reaches row 0 of the well only as the I piece turned
/// twice; every other square of it lies above the well.
pub proof fn lemma_fresh_reaches_row_zero(t: Tetris, i: int)
    requires
        t.is_fresh(),
        0 <= i < SQUARES,
    ensures
        cell_of(t, i).0 <= 0,
        cell_of(t, i).0 == 0 ==> t.kind == 5 && t.direc == 2,
{
}

/// Sideways moves and turns keep the falling piece on empty squares: they
/// only move it where all its squares are free, and leave it otherwise.
pub proof fn lemma_moves_keep_piece_clear(g: Game, h: Game, moved: int)
    requires
        piece_clear(g.blockes, g.curter),
        vertical_post(g, h, moved) || turn_post(g, h),
    ensures
        piece_clear(h.blockes, h.curter),
{
    if vertical_post(g, h, moved) && placeable_shifted(g.blockes, g.curter, moved) {
        assert forall|i: int| 0 <= i < SQUARES implies square_free(h.blockes, #[trigger] cell_of(h.curter, i).0, cell_of(h.curter, i).1) by {
            assert(cell_of(h.curter, i) == (cell_of(g.curter, i).0, cell_of(g.curter, i).1 + moved));
            assert(square_ok(g.blockes, cell_of(g.curter, i).0, cell_of(g.curter, i).1 + moved));
        }
    } else if turn_post(g, h) && placeable(g.blockes, g.curter.turned()) {
        assert forall|i: int| 0 <= i < SQUARES implies square_free(h.blockes, #[trigger] cell_of(h.curter, i).0, cell_of(h.curter, i).1) by {
            assert(square_ok(g.blockes, cell_of(h.curter, i).0, cell_of(h.curter, i).1));
        }
    }
}

/// A step down that does not end the game keeps the well's invariants: the
/// well holds only 0 and 1, no row of it is full, and the falling piece
/// stands on empty squares — except that a newly dealt I piece turned twice
/// reaches row 0 and may stand there on a filled square.
pub proof fn lemma_down_keeps_play_invariants(g: Game, h: Game)
    requires
        g.wf(),
        down_post(g, h),
        !ends_game(g),
        binary_board(g.blockes),
        no_full_row(g.blockes),
        piece_clear(g.blockes, g.curter),
    ensures
        binary_board(h.blockes),
        no_full_row(h.blockes),
        piece_clear(h.blockes, h.curter) || (h.curter.kind == 5 && h.curter.direc == 2),
{
    lemma_down_keeps_binary(g, h);
    if !landed(g.blockes, g.curter) {
        let t = g.curter;
        assert forall|i: int| 0 <= i < SQUARES implies square_free(h.blockes, #[trigger] cell_of(h.curter, i).0, cell_of(h.curter, i).1) by {
            assert(!blocked(g.blockes, t, i));
            assert(cell_of(h.curter, i) == (cell_of(t, i).0 + 1, cell_of(t, i).1));
        }
    } else {
        lemma_no_full_row_after_landing(g, h);
        if !(h.curter.kind == 5 && h.curter.direc == 2) {
            assert forall|i: int| 0 <= i < SQUARES implies square_free(h.blockes, #[trigger] cell_of(h.curter, i).0, cell_of(h.curter, i).1) by {
                lemma_fresh_reaches_row_zero(h.curter, i);
            }
        }
    }
}

/// A step down moves a piece exactly one row lower, and changes nothing
/// else, whenever the square directly below each of its squares is above
/// the well or an empty square of the well (its row below 20): only the
/// floor or a filled square stops a piece.
pub proof fn lemma_down_falls_when_below_is_open(g: Game, h: Game)
    requires
        g.wf(),
        down_post(g, h),
        forall|i: int| 0 <= i < SQUARES ==> {
            let x = #[trigger] cell_of(g.curter, i).0 + 1;
            let y = cell_of(g.curter, i).1;
            x < 0 || (x < 20 && g.blockes[x][y] == 0)
        },
    ensures
        h.curter.position[0] == g.curter.position[0] + 1,
        h.curter.position[1] == g.curter.position[1],
        h.curter.kind == g.curter.kind,
        h.curter.direc == g.curter.direc,
        h.blockes == g.blockes,
        h.nxtter == g.nxtter,
        h.scores == g.scores,
        h.state == g.state,
{
    assert(!blocked(g.blockes, g.curter, 0));
    assert(!blocked(g.blockes, g.curter, 1));
    assert(!blocked(g.blockes, g.curter, 2));
    assert(!blocked(g.blockes, g.curter, 3));
}

/// A step down never moves a piece one row lower when a square of it
/// stands on the floor (row 19) or directly above a filled square of the
/// well: the piece lands instead.
pub proof fn lemma_down_lands_when_below_is_closed(g: Game, h: Game, i: int)
    requires
        g.wf(),
        down_post(g, h),
        0 <= i < SQUARES,
        ({
            let x = cell_of(g.curter, i).0 + 1;
            let y = cell_of(g.curter, i).1;
            x >= 20 || (x >= 0 && g.blockes[x][y] != 0)
        }),
    ensures
        h.state == GameState::Stopped || h.curter == g.nxtter,
{
    assert(blocked(g.blockes, g.curter, i));
}

/// A sideways move of `moved` columns is made whenever every shifted square
/// lies in a column 0 to 9 and above the well or on an empty square of it;
/// and the game is left exactly as it was whenever a shifted square leaves
/// those columns or falls on a filled square of the well.
pub proof fn lemma_vertical_moves_exactly_when_free(g: Game, h: Game, moved: int)
    requires
        vertical_post(g, h, moved),
    ensures
        (forall|i: int| #![trigger cell_of(g.curter, i)] 0 <= i < SQUARES ==>
            0 <= cell_of(g.curter, i).1 + moved < 10 && (cell_of(g.curter, i).0 < 0 || (
            cell_of(g.curter, i).0 < 20 && g.blockes[cell_of(g.curter, i).0][cell_of(g.curter, i).1 + moved] == 0)))
            ==> {
            &&& h.curter.position[0] == g.curter.position[0]
            &&& h.curter.position[1] == g.curter.position[1] + moved
            &&& h.curter.kind == g.curter.kind
            &&& h.curter.direc == g.curter.direc
            &&& h.blockes == g.blockes
            &&& h.nxtter == g.nxtter
            &&& h.scores == g.scores
            &&& h.state == g.state
        },
        (exists|i: int| #![trigger cell_of(g.curter, i)] 0 <= i < SQUARES &&
            !(0 <= cell_of(g.curter, i).1 + moved < 10 && (cell_of(g.curter, i).0 < 0 || (
            cell_of(g.curter, i).0 < 20 && g.blockes[cell_of(g.curter, i).0][cell_of(g.curter, i).1 + moved] == 0))))
            ==> h == g,
{
    if forall|i: int| #![trigger cell_of(g.curter, i)] 0 <= i < SQUARES ==>
        0 <= cell_of(g.curter, i).1 + moved < 10 && (cell_of(g.curter, i).0 < 0 || (
        cell_of(g.curter, i).0 < 20 && g.blockes[cell_of(g.curter, i).0][cell_of(g.curter, i).1 + moved] == 0)) {
        assert forall|i: int| 0 <= i < SQUARES implies square_ok(g.blockes, #[trigger] cell_of(g.curter, i).0, cell_of(g.curter, i).1 + moved) by {
            assert(0 <= cell_of(g.curter, i).1 + moved < 10);
        }
        assert(placeable_shifted(g.blockes, g.curter, moved));
    } else {
        let i = choose|i: int| #![trigger cell_of(g.curter, i)] 0 <= i < SQUARES &&
            !(0 <= cell_of(g.curter, i).1 + moved < 10 && (cell_of(g.curter, i).0 < 0 || (
            cell_of(g.curter, i).0 < 20 && g.blockes[cell_of(g.curter, i).0][cell_of(g.curter, i).1 + moved] == 0)));
        assert(!square_ok(g.blockes, cell_of(g.curter, i).0, cell_of(g.curter, i).1 + moved));
        assert(!placeable_shifted(g.blockes, g.curter, moved));
    }
}

/// A quarter turn is made (the direction steps on by one, modulo 4, and
/// nothing else changes) whenever every square of the turned piece lies in
/// a column 0 to 9 and above the well or on an empty square of it; squares
/// above the well never block a turn. The game is left exactly as it was
/// whenever a turned square leaves those columns or falls on a filled
/// square of the well.
pub proof fn lemma_turn_made_exactly_when_free(g: Game, h: Game, t2: Tetris)
    requires
        turn_post(g, h),
        t2 == (Tetris { direc: ((g.curter.direc + 1) % 4) as usize, ..g.curter }),
    ensures
        (forall|i: int| #![trigger cell_of(t2, i)] 0 <= i < SQUARES ==>
            0 <= cell_of(t2, i).1 < 10 && (cell_of(t2, i).0 < 0 || (
            cell_of(t2, i).0 < 20 && g.blockes[cell_of(t2, i).0][cell_of(t2, i).1] == 0)))
            ==> {
            &&& h.curter.direc == (g.curter.direc + 1) % 4
            &&& h.curter.kind == g.curter.kind
            &&& h.curter.position == g.curter.position
            &&& h.blockes == g.blockes
            &&& h.nxtter == g.nxtter
            &&& h.scores == g.scores
            &&& h.state == g.state
        },
        (exists|i: int| #![trigger cell_of(t2, i)] 0 <= i < SQUARES &&
            !(0 <= cell_of(t2, i).1 < 10 && (cell_of(t2, i).0 < 0 || (
            cell_of(t2, i).0 < 20 && g.blockes[cell_of(t2, i).0][cell_of(t2, i).1] == 0))))
            ==> h == g,
{
    assert(t2 == g.curter.turned());
    if forall|i: int| #![trigger cell_of(t2, i)] 0 <= i < SQUARES ==>
        0 <= cell_of(t2, i).1 < 10 && (cell_of(t2, i).0 < 0 || (
        cell_of(t2, i).0 < 20 && g.blockes[cell_of(t2, i).0][cell_of(t2, i).1] == 0)) {
        assert forall|i: int| 0 <= i < SQUARES implies square_ok(g.blockes, #[trigger] cell_of(t2, i).0, cell_of(t2, i).1) by {
            assert(0 <= cell_of(t2, i).1 < 10);
        }
        assert(placeable(g.blockes, g.curter.turned()));
    } else {
        let i = choose|i: int| #![trigger cell_of(t2, i)] 0 <= i < SQUARES &&
            !(0 <= cell_of(t2, i).1 < 10 && (cell_of(t2, i).0 < 0 || (
            cell_of(t2, i).0 < 20 && g.blockes[cell_of(t2, i).0][cell_of(t2, i).1] == 0)));
        assert(!square_ok(g.blockes, cell_of(t2, i).0, cell_of(t2, i).1));
        assert(!placeable(g.blockes, g.curter.turned()));
    }
}

} // verus!
