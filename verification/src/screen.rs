use vstd::prelude::*;

use crate::board::{Board, ROWS, COLS};
use crate::frame::{FrameWork, table, drawn, blank, glyphs};
use crate::game::GameState;
use crate::piece::Tetris;
use crate::shape::{KINDS, SQUARES, cell_of, spec_offset, shape_point, xt_yt, xt_yt_fits};
use crate::text::{utf8_len, lemma_utf8_len, chars_of, decimal, decimal_chars, lemma_u128_decimal_len};

verus! {

broadcast use vstd::array::group_array_axioms;

/// `rows` with `words` put in row `top` from column `left` on.
pub open spec fn written(rows: Seq<Seq<char>>, left: int, top: int, words: Seq<char>) -> Seq<Seq<char>> {
    rows.update(
        top,
        Seq::new(
            rows[top].len(),
            |j: int| if left <= j < left + words.len() { words[j - left] } else { rows[top][j] },
        ),
    )
}

/// Puts `words` in row `top` of the screen from column `left` on. The text
/// must end, counted in bytes of UTF-8, before the end of the first row.
pub fn write(interface: &mut Vec<Vec<char>>, left: usize, top: usize, words: &[char])
    requires
        old(interface)@.len() > 0,
        left + utf8_len(words@) < old(interface)@[0]@.len(),
        top < old(interface)@.len(),
        left + words@.len() <= old(interface)@[top as int]@.len(),
    ensures
        table(*final(interface)) == written(table(*old(interface)), left as int, top as int, words@),
        final(interface)@.len() == old(interface)@.len(),
{
    let mut i: usize = 0;
    while i < words.len()
        invariant
            top < interface@.len(),
            interface@.len() == old(interface)@.len(),
            left + words@.len() <= old(interface)@[top as int]@.len(),
            i <= words@.len(),
            forall|a: int| 0 <= a < interface@.len() && a != top ==> #[trigger] interface@[a] == old(interface)@[a],
            interface@[top as int]@ == Seq::new(
                old(interface)@[top as int]@.len(),
                |j: int| if left <= j < left + i { words@[j - left] } else { old(interface)@[top as int]@[j] },
            ),
        decreases words@.len() - i,
    {
        proof {
            assert(interface@[top as int].len() == interface@[top as int]@.len());
        }
        interface[top][i + left] = words[i];
        i += 1;
        proof {
            assert(interface@[top as int]@ =~= Seq::new(
                old(interface)@[top as int]@.len(),
                |j: int| if left <= j < left + i { words@[j - left] } else { old(interface)@[top as int]@[j] },
            ));
        }
    }
    proof {
        assert(table(*interface) =~~= written(table(*old(interface)), left as int, top as int, words@));
    }
}

/// Number of rows of the screen.
pub const SCREEN_ROWS: usize = 30;

/// Number of columns of the screen.
pub const SCREEN_COLS: usize = 70;

/// The line bits of the screen's frame: the outer edge, the playing area's
/// box, the box of the next piece.
pub open spec fn template_frame() -> Seq<Seq<usize>> {
    let c0 = drawn(blank(SCREEN_ROWS as int, SCREEN_COLS as int), 0, 29, 0, 69);
    let c1 = drawn(c0, 0, 29, 0, 39);
    let c2 = drawn(c1, 6, 27, 9, 30);
    drawn(c2, 4, 12, 48, 61)
}

/// The screen with no piece on it: the frame, the heading of the next
/// piece's box and the help text.
pub open spec fn template() -> Seq<Seq<char>> {
    let g = glyphs(template_frame());
    let g = written(g, 49, 2, "Next Tetris"@);
    let g = written(g, 43, 14, "Operations:"@);
    let g = written(g, 43, 16, "space:"@);
    let g = written(g, 47, 17, "pause the game"@);
    let g = written(g, 43, 18, "q:"@);
    let g = written(g, 47, 19, "quit the game"@);
    let g = written(g, 43, 20, "↑↓←→:"@);
    written(g, 47, 21, "control the tertris"@)
}

/// The screen layout: the frame and texts that every picture starts from.
pub struct InterFace {
    interface: Vec<Vec<char>>,
    width: usize,
    height: usize,
}

impl View for InterFace {
    type V = Seq<Seq<char>>;

    closed spec fn view(&self) -> Seq<Seq<char>> {
        table(self.interface)
    }
}

/// A screen of `SCREEN_ROWS` rows of `SCREEN_COLS` characters.
pub open spec fn screen_shaped(s: Seq<Seq<char>>) -> bool {
    &&& s.len() == SCREEN_ROWS
    &&& forall|a: int| 0 <= a < SCREEN_ROWS ==> (#[trigger] s[a]).len() == SCREEN_COLS
}

/// Writes a text that fits on the screen, given as a string.
fn write_str(interface: &mut Vec<Vec<char>>, left: usize, top: usize, words: &str)
    requires
        screen_shaped(table(*old(interface))),
        top < SCREEN_ROWS,
        left + utf8_len(words@) < SCREEN_COLS,
    ensures
        table(*final(interface)) == written(table(*old(interface)), left as int, top as int, words@),
        screen_shaped(table(*final(interface))),
{
    let chars = chars_of(words);
    proof {
        lemma_utf8_len(words@);
        assert(old(interface)@[0]@ == table(*old(interface))[0]);
        assert(old(interface)@[top as int]@ == table(*old(interface))[top as int]);
    }
    write(interface, left, top, chars.as_slice());
}

impl InterFace {
    #[verifier::type_invariant]
    spec fn shaped(self) -> bool {
        &&& self.width == SCREEN_COLS
        &&& self.height == SCREEN_ROWS
        &&& screen_shaped(table(self.interface))
    }

    /// The screen layout: the frame, and the texts round it.
    pub fn new() -> (i: InterFace)
        ensures
            i@ == template(),
    {
        let mut frame = FrameWork::new(SCREEN_ROWS, SCREEN_COLS);
        frame.rdraw(0, 29, 0, 39);
        frame.rdraw(6, 27, 9, 30);
        frame.rdraw(4, 12, 48, 61);
        let mut interface = frame.get_vec();
        proof {
            assert(frame.cells() == template_frame());
            assert(screen_shaped(table(interface)));
            reveal_strlit("Next Tetris");
            reveal_strlit("Operations:");
            reveal_strlit("space:");
            reveal_strlit("pause the game");
            reveal_strlit("q:");
            reveal_strlit("quit the game");
            reveal_strlit("↑↓←→:");
            reveal_strlit("control the tertris");
            lemma_utf8_len("Next Tetris"@);
            lemma_utf8_len("Operations:"@);
            lemma_utf8_len("space:"@);
            lemma_utf8_len("pause the game"@);
            lemma_utf8_len("q:"@);
            lemma_utf8_len("quit the game"@);
            lemma_utf8_len("↑↓←→:"@);
            lemma_utf8_len("control the tertris"@);
        }
        write_str(&mut interface, 49, 2, "Next Tetris");
        write_str(&mut interface, 43, 14, "Operations:");
        write_str(&mut interface, 43, 16, "space:");
        write_str(&mut interface, 47, 17, "pause the game");
        write_str(&mut interface, 43, 18, "q:");
        write_str(&mut interface, 47, 19, "quit the game");
        write_str(&mut interface, 43, 20, "↑↓←→:");
        write_str(&mut interface, 47, 21, "control the tertris");
        InterFace { interface, width: SCREEN_COLS, height: SCREEN_ROWS }
    }
}
/// Square `i` of the falling piece `t` is in the well and shows at screen
/// cell (r, c): each well square is two screen columns wide.
pub open spec fn current_square_at(t: Tetris, i: int, r: int, c: int) -> bool {
    let (x, y) = cell_of(t, i);
    &&& 0 <= x < ROWS
    &&& 0 <= y < COLS
    &&& r == x + 7
    &&& (c == 2 * y + 10 || c == 2 * y + 11)
}

/// One of the first `n` squares of the falling piece shows at (r, c).
pub open spec fn current_shows(t: Tetris, n: int, r: int, c: int) -> bool {
    ||| (n > 0 && current_square_at(t, 0, r, c))
    ||| (n > 1 && current_square_at(t, 1, r, c))
    ||| (n > 2 && current_square_at(t, 2, r, c))
    ||| (n > 3 && current_square_at(t, 3, r, c))
}

/// Square `i` of the next piece, as dealt and unturned, shows at (r, c) in
/// the next piece's box.
pub open spec fn next_square_at(next: Tetris, i: int, r: int, c: int) -> bool {
    let (p0, p1) = spec_offset(next.kind as int, i);
    &&& r == p0 + 8
    &&& (c == 2 * p1 + 54 || c == 2 * p1 + 55)
}

/// One of the first `n` squares of the next piece shows at (r, c).
pub open spec fn next_shows(next: Tetris, n: int, r: int, c: int) -> bool {
    ||| (n > 0 && next_square_at(next, 0, r, c))
    ||| (n > 1 && next_square_at(next, 1, r, c))
    ||| (n > 2 && next_square_at(next, 2, r, c))
    ||| (n > 3 && next_square_at(next, 3, r, c))
}

/// Screen cell (r, c) shows a square of the well that holds 1, among the
/// first `limit` squares in row order.
pub open spec fn block_shows(b: Board, limit: int, r: int, c: int) -> bool {
    &&& 7 <= r < 7 + ROWS
    &&& 10 <= c < 10 + 2 * COLS
    &&& (r - 7) * COLS + (c - 10) / 2 < limit
    &&& b[r - 7][(c - 10) / 2] == 1
}

/// The character for a square in the picture.
pub open spec fn square_char() -> char {
    '█'
}

/// `base` with the squares painted: the first `nc` of the falling piece,
/// the first `nn` of the next piece, and the first `limit` of the well.
pub open spec fn painted_upto(
    base: Seq<Seq<char>>,
    t: Tetris,
    nc: int,
    next: Tetris,
    nn: int,
    b: Board,
    limit: int,
) -> Seq<Seq<char>> {
    Seq::new(
        base.len(),
        |r: int| Seq::new(
            base[r].len(),
            |c: int| if current_shows(t, nc, r, c) || next_shows(next, nn, r, c) || block_shows(b, limit, r, c) {
                square_char()
            } else {
                base[r][c]
            },
        ),
    )
}

/// The text that tells the state of the game.
pub open spec fn status_text(state: GameState) -> Seq<char> {
    match state {
        GameState::Playing => "Playing"@,
        GameState::Stopped => "You loose!"@,
        GameState::Pausing => "Pausing"@,
    }
}

/// The text that tells the score.
pub open spec fn score_text(scores: u128) -> Seq<char> {
    "Scores: "@ + decimal(scores as nat)
}

/// The picture of a game: the layout `base` with the falling piece's
/// squares that are in the well, the next piece in its box, the filled
/// squares of the well, the state and the score.
pub open spec fn picture(
    base: Seq<Seq<char>>,
    t: Tetris,
    next: Tetris,
    b: Board,
    state: GameState,
    scores: u128,
) -> Seq<Seq<char>> {
    let p = painted_upto(base, t, 4, next, 4, b, (ROWS * COLS) as int);
    written(written(p, 17, 5, status_text(state)), 16, 3, score_text(scores))
}

/// Every square of `t` can be placed by `xt_yt`.
pub open spec fn squares_fit(t: Tetris) -> bool {
    &&& t.kind < KINDS
    &&& forall|i: int| 0 <= i < SQUARES ==> xt_yt_fits(#[trigger] spec_offset(t.kind as int, i), t)
}

/// A copy of the rows of a screen.
fn copy_rows(v: &Vec<Vec<char>>) -> (r: Vec<Vec<char>>)
    ensures
        table(r) == table(*v),
{
    let mut r: Vec<Vec<char>> = Vec::new();
    let mut a: usize = 0;
    while a < v.len()
        invariant
            a <= v@.len(),
            r@.len() == a,
            forall|i: int| 0 <= i < a ==> (#[trigger] r@[i])@ == v@[i]@,
        decreases v@.len() - a,
    {
        let row = &v[a];
        let mut line: Vec<char> = Vec::new();
        let mut b: usize = 0;
        while b < row.len()
            invariant
                b <= row@.len(),
                line@ == row@.take(b as int),
            decreases row@.len() - b,
        {
            line.push(row[b]);
            b += 1;
            proof {
                assert(line@ =~= row@.take(b as int));
            }
        }
        proof {
            assert(line@ =~= row@);
        }
        r.push(line);
        a += 1;
    }
    proof {
        assert(table(r) =~~= table(*v));
    }
    r
}

/// `s` with a square painted at (r, c) and (r, c + 1).
pub open spec fn with_pair(s: Seq<Seq<char>>, r: int, c: int) -> Seq<Seq<char>> {
    Seq::new(
        s.len(),
        |a: int| Seq::new(
            s[a].len(),
            |b: int| if a == r && (b == c || b == c + 1) { square_char() } else { s[a][b] },
        ),
    )
}

/// Paints one square at (r, c) and (r, c + 1).
fn paint_pair(screen: &mut Vec<Vec<char>>, r: usize, c: usize)
    requires
        screen_shaped(table(*old(screen))),
        r < SCREEN_ROWS,
        c + 1 < SCREEN_COLS,
    ensures
        table(*final(screen)) == with_pair(table(*old(screen)), r as int, c as int),
        screen_shaped(table(*final(screen))),
{
    proof {
        assert(screen@[r as int]@ == table(*screen)[r as int]);
    }
    screen[r][c] = '█';
    screen[r][c + 1] = '█';
    proof {
        assert(table(*final(screen)) =~~= with_pair(table(*old(screen)), r as int, c as int));
    }
}

/// Painting the next square of the falling piece paints its pair of
/// screen cells when the square is in the well, and nothing otherwise.
proof fn lemma_paint_current(base: Seq<Seq<char>>, t: Tetris, i: int, next: Tetris, b: Board)
    requires
        0 <= i < SQUARES,
    ensures
        ({
            let (x, y) = cell_of(t, i);
            let before = painted_upto(base, t, i, next, 0, b, 0);
            let after = painted_upto(base, t, i + 1, next, 0, b, 0);
            &&& (0 <= x < ROWS && 0 <= y < COLS) ==> after == with_pair(before, x + 7, 2 * y + 10)
            &&& !(0 <= x < ROWS && 0 <= y < COLS) ==> after == before
        }),
{
    let (x, y) = cell_of(t, i);
    let before = painted_upto(base, t, i, next, 0, b, 0);
    let after = painted_upto(base, t, i + 1, next, 0, b, 0);
    if 0 <= x < ROWS && 0 <= y < COLS {
        assert(after =~~= with_pair(before, x + 7, 2 * y + 10));
    } else {
        assert(after =~~= before);
    }
}

/// Painting the next square of the next piece paints its pair of screen
/// cells.
proof fn lemma_paint_next(base: Seq<Seq<char>>, t: Tetris, next: Tetris, i: int, b: Board)
    requires
        0 <= i < SQUARES,
    ensures
        ({
            let (p0, p1) = spec_offset(next.kind as int, i);
            painted_upto(base, t, 4, next, i + 1, b, 0)
                == with_pair(painted_upto(base, t, 4, next, i, b, 0), p0 + 8, 2 * p1 + 54)
        }),
{
    let (p0, p1) = spec_offset(next.kind as int, i);
    assert(painted_upto(base, t, 4, next, i + 1, b, 0)
        =~~= with_pair(painted_upto(base, t, 4, next, i, b, 0), p0 + 8, 2 * p1 + 54));
}

/// Painting the next square of the well paints its pair of screen cells
/// when it holds 1, and nothing otherwise.
proof fn lemma_paint_block(base: Seq<Seq<char>>, t: Tetris, next: Tetris, b: Board, x: int, y: int)
    requires
        0 <= x < ROWS,
        0 <= y < COLS,
    ensures
        ({
            let before = painted_upto(base, t, 4, next, 4, b, x * COLS + y);
            let after = painted_upto(base, t, 4, next, 4, b, x * COLS + y + 1);
            &&& b[x][y] == 1 ==> after == with_pair(before, x + 7, 2 * y + 10)
            &&& b[x][y] != 1 ==> after == before
        }),
{
    let before = painted_upto(base, t, 4, next, 4, b, x * COLS + y);
    let after = painted_upto(base, t, 4, next, 4, b, x * COLS + y + 1);
    assert forall|r: int, c: int| 0 <= r < before.len() && 0 <= c < before[r].len() implies
        #[trigger] after[r][c] == (if b[x][y] == 1 { with_pair(before, x + 7, 2 * y + 10) } else { before })[r][c] by {
        if 7 <= r < 7 + ROWS && 10 <= c < 10 + 2 * COLS {
            if r == x + 7 && (c == 2 * y + 10 || c == 2 * y + 11) {
                assert((c - 10) / 2 == y);
            }
            if (r - 7) * COLS + (c - 10) / 2 == x * COLS + y {
                assert(0 <= (c - 10) / 2 < COLS);
                assert(r - 7 == x);
            }
        }
    }
    if b[x][y] == 1 {
        assert(after =~~= with_pair(before, x + 7, 2 * y + 10));
    } else {
        assert(after =~~= before);
    }
}

/// Painting keeps the screen's shape.
proof fn lemma_with_pair_shaped(s: Seq<Seq<char>>, r: int, c: int)
    requires
        screen_shaped(s),
    ensures
        screen_shaped(with_pair(s, r, c)),
{
}

impl InterFace {
    /// The picture of a game on this layout.
    pub fn show_frame(
        &self,
        t: &Tetris,
        next: &Tetris,
        blockes: &Board,
        state: &GameState,
        scores: u128,
    ) -> (frame: Vec<Vec<char>>)
        requires
            squares_fit(*t),
            next.kind < KINDS,
        ensures
            table(frame) == picture(self@, *t, *next, *blockes, *state, scores),
    {
        proof {
            use_type_invariant(self);
        }
        let mut interface = copy_rows(&self.interface);
        let ghost base = self@;
        proof {
            assert(table(interface) =~~= painted_upto(base, *t, 0, *next, 0, *blockes, 0));
        }
        let mut i: usize = 0;
        while i < SQUARES
            invariant
                screen_shaped(base),
                squares_fit(*t),
                i <= SQUARES,
                screen_shaped(table(interface)),
                table(interface) == painted_upto(base, *t, i as int, *next, 0, *blockes, 0),
            decreases SQUARES - i,
        {
            let points = shape_point(t.kind, i);
            let (xt, yt) = xt_yt(&points, t);
            proof {
                lemma_paint_current(base, *t, i as int, *next, *blockes);
            }
            if xt >= 0 && xt < 20 && yt >= 0 && yt < 10 {
                paint_pair(&mut interface, xt as usize + 7, (yt as usize) * 2 + 10);
            }
            i += 1;
        }
        let mut i: usize = 0;
        while i < SQUARES
            invariant
                screen_shaped(base),
                next.kind < KINDS,
                i <= SQUARES,
                screen_shaped(table(interface)),
                table(interface) == painted_upto(base, *t, 4, *next, i as int, *blockes, 0),
            decreases SQUARES - i,
        {
            let points = shape_point(next.kind, i);
            proof {
                lemma_paint_next(base, *t, *next, i as int, *blockes);
            }
            paint_pair(&mut interface, (points[0] + 8) as usize, (points[1] * 2 + 54) as usize);
            i += 1;
        }
        let mut x: usize = 0;
        while x < ROWS
            invariant
                screen_shaped(base),
                x <= ROWS,
                screen_shaped(table(interface)),
                table(interface) == painted_upto(base, *t, 4, *next, 4, *blockes, (x * COLS) as int),
            decreases ROWS - x,
        {
            let mut y: usize = 0;
            while y < COLS
                invariant
                    screen_shaped(base),
                    x < ROWS,
                    y <= COLS,
                    screen_shaped(table(interface)),
                    table(interface) == painted_upto(base, *t, 4, *next, 4, *blockes, (x * COLS + y) as int),
                decreases COLS - y,
            {
                proof {
                    lemma_paint_block(base, *t, *next, *blockes, x as int, y as int);
                }
                if blockes[x][y] == 1 {
                    paint_pair(&mut interface, x + 7, y * 2 + 10);
                }
                y += 1;
            }
            x += 1;
        }
        let status = match state {
            GameState::Playing => chars_of("Playing"),
            GameState::Stopped => chars_of("You loose!"),
            GameState::Pausing => chars_of("Pausing"),
        };
        proof {
            reveal_strlit("Playing");
            reveal_strlit("You loose!");
            reveal_strlit("Pausing");
            lemma_utf8_len(status@);
            assert(interface@[0]@ == table(interface)[0]);
            assert(interface@[5]@ == table(interface)[5]);
        }
        write(&mut interface, 17, 5, status.as_slice());
        let mut score = chars_of("Scores: ");
        let mut digits = decimal_chars(scores);
        score.append(&mut digits);
        proof {
            reveal_strlit("Scores: ");
            lemma_u128_decimal_len(scores);
            assert forall|k: int| 0 <= k < score@.len() implies (#[trigger] score@[k]) as u32 <= 0x7f by {
                if k >= 8 {
                    lemma_decimal_digits_ascii(scores as nat, k - 8);
                }
            }
            lemma_utf8_len(score@);
            assert(interface@[0]@ == table(interface)[0]);
            assert(interface@[3]@ == table(interface)[3]);
        }
        write(&mut interface, 16, 3, score.as_slice());
        interface
    }
}

/// Every character of a decimal numeral is an ASCII digit.
proof fn lemma_decimal_digits_ascii(n: nat, k: int)
    requires
        0 <= k < decimal(n).len(),
    ensures
        (decimal(n)[k]) as u32 <= 0x7f,
    decreases n,
{
    if n >= 10 && k < decimal(n).len() - 1 {
        lemma_decimal_digits_ascii(n / 10, k);
    }
}

/// The picture shows the next piece by its kind alone, unturned and at a
/// fixed place: its position and direction make no difference.
pub proof fn lemma_preview_ignores_placement(
    base: Seq<Seq<char>>,
    t: Tetris,
    next: Tetris,
    next2: Tetris,
    b: Board,
    state: GameState,
    scores: u128,
)
    requires
        next2.kind == next.kind,
    ensures
        picture(base, t, next2, b, state, scores) == picture(base, t, next, b, state, scores),
{
    let n = (ROWS * COLS) as int;
    assert(painted_upto(base, t, 4, next2, 4, b, n) =~~= painted_upto(base, t, 4, next, 4, b, n));
}

/// The help text of the layout puts each action under the key that does it:
/// "pause the game" under "space:", "quit the game" under "q:", and
/// "control the tertris" under the arrows.
pub proof fn lemma_help_text()
    ensures
        template()[16].subrange(43, 49) == "space:"@,
        template()[17].subrange(47, 61) == "pause the game"@,
        template()[18].subrange(43, 45) == "q:"@,
        template()[19].subrange(47, 60) == "quit the game"@,
        template()[20].subrange(43, 48) == "↑↓←→:"@,
        template()[21].subrange(47, 66) == "control the tertris"@,
        template()[2].subrange(49, 60) == "Next Tetris"@,
        template()[14].subrange(43, 54) == "Operations:"@,
{
    reveal_strlit("Next Tetris");
    reveal_strlit("Operations:");
    reveal_strlit("space:");
    reveal_strlit("pause the game");
    reveal_strlit("q:");
    reveal_strlit("quit the game");
    reveal_strlit("↑↓←→:");
    reveal_strlit("control the tertris");
    let g0 = glyphs(template_frame());
    assert(g0.len() == SCREEN_ROWS);
    assert forall|a: int| 0 <= a < SCREEN_ROWS implies (#[trigger] g0[a]).len() == SCREEN_COLS by {
        assert(template_frame()[a].len() == SCREEN_COLS);
    }
    let g1 = written(g0, 49, 2, "Next Tetris"@);
    let g2 = written(g1, 43, 14, "Operations:"@);
    let g3 = written(g2, 43, 16, "space:"@);
    let g4 = written(g3, 47, 17, "pause the game"@);
    let g5 = written(g4, 43, 18, "q:"@);
    let g6 = written(g5, 47, 19, "quit the game"@);
    let g7 = written(g6, 43, 20, "↑↓←→:"@);
    let g8 = written(g7, 47, 21, "control the tertris"@);
    assert(g8 == template());
    assert(g8[16] == g3[16]);
    assert(g3[16].subrange(43, 49) =~= "space:"@);
    assert(g8[17] == g4[17]);
    assert(g4[17].subrange(47, 61) =~= "pause the game"@);
    assert(g8[18] == g5[18]);
    assert(g5[18].subrange(43, 45) =~= "q:"@);
    assert(g8[19] == g6[19]);
    assert(g6[19].subrange(47, 60) =~= "quit the game"@);
    assert(g8[20] == g7[20]);
    assert(g7[20].subrange(43, 48) =~= "↑↓←→:"@);
    assert(g8[21].subrange(47, 66) =~= "control the tertris"@);
    assert(g8[2] == g1[2]);
    assert(g1[2].subrange(49, 60) =~= "Next Tetris"@);
    assert(g8[14] == g2[14]);
    assert(g2[14].subrange(43, 54) =~= "Operations:"@);
}

} // verus!
