use vstd::prelude::*;

verus! {

/// The rows of a table of vectors, as sequences.
pub open spec fn table<T>(v: Vec<Vec<T>>) -> Seq<Seq<T>> {
    Seq::new(v@.len(), |a: int| v@[a]@)
}

/// A box-drawing canvas: each cell holds which of its four sides a line
/// leaves by (1 up, 2 down, 4 right, 8 left).
pub struct FrameWork {
    pub height: usize,
    pub width: usize,
    pub stringify: Vec<Vec<usize>>,
}

/// `rdraw` draws a rectangle only when its four sides lie on the canvas and
/// it has two distinct rows and two distinct columns.
pub open spec fn rdraw_accepts(h: int, w: int, up: int, down: int, left: int, right: int) -> bool {
    !(up >= h || down >= h || left >= w || right >= w || left == right || up == down)
}

/// The line bits that a rectangle drawing has put in cell (a, b) once its
/// vertical sides are drawn on the rows before `vi`, its horizontal sides
/// on the columns before `hj`, and `corners` of its corners are drawn.
pub open spec fn border_bits(
    up: int,
    down: int,
    left: int,
    right: int,
    vi: int,
    hj: int,
    corners: int,
    a: int,
    b: int,
) -> usize {
    if corners >= 1 && a == up && b == left {
        6
    } else if corners >= 2 && a == up && b == right {
        10
    } else if corners >= 3 && a == down && b == left {
        5
    } else if corners >= 4 && a == down && b == right {
        9
    } else if up < a < vi && (b == left || b == right) {
        3
    } else if left < b < hj && (a == up || a == down) {
        12
    } else {
        0
    }
}

/// The line bits of the rectangle with rows `up` and `down` and columns
/// `left` and `right` in cell (a, b): a corner piece at each corner, a
/// vertical line strictly between the rows on both columns, a horizontal
/// line strictly between the columns on both rows.
pub open spec fn border_bit(up: int, down: int, left: int, right: int, a: int, b: int) -> usize {
    border_bits(up, down, left, right, down, right, 4, a, b)
}

/// The canvas `c` with the rectangle drawn over what it holds.
pub open spec fn drawn(c: Seq<Seq<usize>>, up: int, down: int, left: int, right: int) -> Seq<Seq<usize>> {
    Seq::new(
        c.len(),
        |a: int| Seq::new(c[a].len(), |b: int| c[a][b] | border_bit(up, down, left, right, a, b)),
    )
}

/// A blank canvas.
pub open spec fn blank(h: int, w: int) -> Seq<Seq<usize>> {
    Seq::new(h as nat, |a: int| Seq::new(w as nat, |b: int| 0usize))
}

/// The character that shows each combination of line bits.
pub open spec fn glyph(v: usize) -> char {
    if v == 0 {
        ' '
    } else if v == 1 {
        '上'
    } else if v == 2 {
        '下'
    } else if v == 3 {
        '║'
    } else if v == 4 {
        '左'
    } else if v == 5 {
        '╚'
    } else if v == 6 {
        '╔'
    } else if v == 7 {
        '╠'
    } else if v == 8 {
        '右'
    } else if v == 9 {
        '╝'
    } else if v == 10 {
        '╗'
    } else if v == 11 {
        '╣'
    } else if v == 12 {
        '═'
    } else if v == 13 {
        '╩'
    } else if v == 14 {
        '╦'
    } else {
        '╬'
    }
}

/// The characters that show a canvas.
pub open spec fn glyphs(c: Seq<Seq<usize>>) -> Seq<Seq<char>> {
    Seq::new(c.len(), |a: int| Seq::new(c[a].len(), |b: int| glyph(c[a][b])))
}

proof fn lemma_or_zero(x: usize)
    ensures
        x | 0usize == x,
{
    assert(x | 0usize == x) by (bit_vector);
}

proof fn lemma_or_small(x: usize, m: usize)
    requires
        x < 16,
        m < 16,
    ensures
        (x | m) < 16,
{
    assert((x | m) < 16) by (bit_vector)
        requires
            x < 16,
            m < 16,
    ;
}

proof fn lemma_or_after_zero(x: usize, m: usize)
    ensures
        (x | 0usize) | m == x | m,
{
    assert((x | 0usize) | m == x | m) by (bit_vector);
}

impl FrameWork {
    /// The canvas cells, row by row.
    pub open spec fn cells(self) -> Seq<Seq<usize>> {
        table(self.stringify)
    }

    /// The canvas has `height` rows of `width` cells.
    pub open spec fn shaped(self) -> bool {
        &&& self.stringify@.len() == self.height
        &&& forall|a: int| 0 <= a < self.height ==> (#[trigger] self.stringify@[a])@.len() == self.width
    }

    /// The canvas has `height` rows of `width` cells, each a combination of
    /// the four line bits.
    pub open spec fn wf(self) -> bool {
        &&& self.shaped()
        &&& forall|a: int, b: int|
            0 <= a < self.height && 0 <= b < self.width ==> #[trigger] self.stringify@[a]@[b] < 16
    }

    /// Adds line bits `m` to cell (a, b).
    fn or_cell(&mut self, a: usize, b: usize, m: usize)
        requires
            old(self).shaped(),
            a < old(self).height,
            b < old(self).width,
            m < 16,
        ensures
            final(self).shaped(),
            old(self).wf() ==> final(self).wf(),
            final(self).height == old(self).height,
            final(self).width == old(self).width,
            final(self).stringify@[a as int]@[b as int] == old(self).stringify@[a as int]@[b as int] | m,
            forall|x: int, y: int|
                0 <= x < old(self).height && 0 <= y < old(self).width && !(x == a && y == b)
                    ==> #[trigger] final(self).stringify@[x]@[y] == old(self).stringify@[x]@[y],
    {
        let v = self.stringify[a][b];
        self.stringify[a][b] = v | m;
        proof {
            if old(self).wf() {
                lemma_or_small(v, m);
            }
        }
    }

    /// Draws the rectangle with rows `up` and `down` and columns `left` and
    /// `right`, adding its line bits to what the canvas holds. Draws nothing
    /// when a side lies off the canvas or the rectangle has no width or
    /// height; returns whether it drew.
    pub fn rdraw(&mut self, up: usize, down: usize, left: usize, right: usize) -> (accepted: bool)
        requires
            old(self).shaped(),
        ensures
            final(self).shaped(),
            old(self).wf() ==> final(self).wf(),
            final(self).height == old(self).height,
            final(self).width == old(self).width,
            accepted == rdraw_accepts(
                old(self).height as int,
                old(self).width as int,
                up as int,
                down as int,
                left as int,
                right as int,
            ),
            accepted ==> final(self).cells() == drawn(
                old(self).cells(),
                up as int,
                down as int,
                left as int,
                right as int,
            ),
            !accepted ==> *final(self) == *old(self),
    {
        if up >= self.height || down >= self.height || left >= self.width || right >= self.width
            || left == right || up == down {
            return false;
        }
        let ghost c0 = self.cells();
        let ghost h = self.height as int;
        let ghost w = self.width as int;
        let ghost (u, d, l, r) = (up as int, down as int, left as int, right as int);
        proof {
            assert forall|a: int, b: int| 0 <= a < h && 0 <= b < w implies
                #[trigger] self.stringify@[a]@[b] == c0[a][b] | border_bits(u, d, l, r, u + 1, l + 1, 0, a, b) by {
                lemma_or_zero(c0[a][b]);
            }
        }
        let mut i = up + 1;
        while i < down
            invariant
                self.shaped(),
                old(self).wf() ==> self.wf(),
                self.height == h,
                self.width == w,
                up < h, down < h, left < w, right < w, left != right, up != down,
                u == up, d == down, l == left, r == right,
                c0.len() == h,
                forall|a: int| 0 <= a < h ==> (#[trigger] c0[a]).len() == w,
                up + 1 <= i,
                i <= down || i == up + 1,
                forall|a: int, b: int| 0 <= a < h && 0 <= b < w ==>
                    #[trigger] self.stringify@[a]@[b] == c0[a][b] | border_bits(u, d, l, r, i as int, l + 1, 0, a, b),
            decreases down - i,
        {
            let ghost before = self.cells();
            self.or_cell(i, left, 3);
            self.or_cell(i, right, 3);
            proof {
                assert forall|a: int, b: int| 0 <= a < h && 0 <= b < w implies
                    #[trigger] self.stringify@[a]@[b] == c0[a][b] | border_bits(u, d, l, r, i + 1, l + 1, 0, a, b) by {
                    if a == i && (b == l || b == r) {
                        assert(before[a][b] == c0[a][b] | border_bits(u, d, l, r, i as int, l + 1, 0, a, b));
                        lemma_or_after_zero(c0[a][b], 3);
                    } else {
                        assert(self.stringify@[a]@[b] == before[a][b]);
                    }
                }
            }
            i += 1;
        }
        let ghost vi = i as int;
        proof {
            assert forall|a: int, b: int| 0 <= a < h && 0 <= b < w implies
                #[trigger] self.stringify@[a]@[b] == c0[a][b] | border_bits(u, d, l, r, d, l + 1, 0, a, b) by {
                assert(border_bits(u, d, l, r, vi, l + 1, 0, a, b) == border_bits(u, d, l, r, d, l + 1, 0, a, b));
            }
        }
        let mut j = left + 1;
        while j < right
            invariant
                self.shaped(),
                old(self).wf() ==> self.wf(),
                self.height == h,
                self.width == w,
                up < h, down < h, left < w, right < w, left != right, up != down,
                u == up, d == down, l == left, r == right,
                c0.len() == h,
                forall|a: int| 0 <= a < h ==> (#[trigger] c0[a]).len() == w,
                left + 1 <= j,
                j <= right || j == left + 1,
                forall|a: int, b: int| 0 <= a < h && 0 <= b < w ==>
                    #[trigger] self.stringify@[a]@[b] == c0[a][b] | border_bits(u, d, l, r, d, j as int, 0, a, b),
            decreases right - j,
        {
            let ghost before = self.cells();
            self.or_cell(up, j, 12);
            self.or_cell(down, j, 12);
            proof {
                assert forall|a: int, b: int| 0 <= a < h && 0 <= b < w implies
                    #[trigger] self.stringify@[a]@[b] == c0[a][b] | border_bits(u, d, l, r, d, j + 1, 0, a, b) by {
                    if b == j && (a == u || a == d) {
                        assert(before[a][b] == c0[a][b] | border_bits(u, d, l, r, d, j as int, 0, a, b));
                        lemma_or_after_zero(c0[a][b], 12);
                    } else {
                        assert(self.stringify@[a]@[b] == before[a][b]);
                    }
                }
            }
            j += 1;
        }
        let ghost hj = j as int;
        let ghost before = self.cells();
        self.or_cell(up, left, 6);
        self.or_cell(up, right, 10);
        self.or_cell(down, left, 5);
        self.or_cell(down, right, 9);
        proof {
            assert forall|a: int, b: int| 0 <= a < h && 0 <= b < w implies
                #[trigger] self.stringify@[a]@[b] == c0[a][b] | border_bit(u, d, l, r, a, b) by {
                assert(before[a][b] == c0[a][b] | border_bits(u, d, l, r, d, hj, 0, a, b));
                if (a == u || a == d) && (b == l || b == r) {
                    assert(border_bits(u, d, l, r, d, hj, 0, a, b) == 0);
                    lemma_or_after_zero(c0[a][b], border_bit(u, d, l, r, a, b));
                } else {
                    assert(border_bits(u, d, l, r, d, hj, 0, a, b) == border_bit(u, d, l, r, a, b));
                }
            }
            assert(self.cells() =~~= drawn(c0, u, d, l, r));
        }
        true
    }

    /// Draws the rectangle whose lower-left corner is `x` columns right of
    /// the canvas's left side and `y` rows above its bottom row, and which
    /// reaches `width` columns right and `height` rows up from there.
    pub fn draw(&mut self, x: usize, y: usize, width: usize, height: usize) -> (accepted: bool)
        requires
            old(self).shaped(),
            y + height + 1 <= old(self).height,
            x + width <= usize::MAX,
        ensures
            final(self).shaped(),
            old(self).wf() ==> final(self).wf(),
            final(self).height == old(self).height,
            final(self).width == old(self).width,
            ({
                let up = old(self).height - 1 - y - height;
                let down = old(self).height - 1 - y;
                &&& accepted == rdraw_accepts(
                    old(self).height as int,
                    old(self).width as int,
                    up,
                    down,
                    x as int,
                    x + width,
                )
                &&& accepted ==> final(self).cells() == drawn(old(self).cells(), up, down, x as int, x + width)
                &&& !accepted ==> *final(self) == *old(self)
            }),
    {
        self.rdraw(self.height - 1 - y - height, self.height - 1 - y, x, x + width)
    }

    /// A canvas of `horizontal` rows and `vertical` columns with a frame
    /// drawn round its edge.
    pub fn new(horizontal: usize, vertical: usize) -> (f: FrameWork)
        requires
            horizontal >= 1,
            vertical >= 1,
        ensures
            f.wf(),
            f.height == horizontal,
            f.width == vertical,
            f.cells() == if rdraw_accepts(
                horizontal as int,
                vertical as int,
                0,
                horizontal - 1,
                0,
                vertical - 1,
            ) {
                drawn(blank(horizontal as int, vertical as int), 0, horizontal - 1, 0, vertical - 1)
            } else {
                blank(horizontal as int, vertical as int)
            },
    {
        let mut rows: Vec<Vec<usize>> = Vec::new();
        let mut a: usize = 0;
        while a < horizontal
            invariant
                a <= horizontal,
                rows@.len() == a,
                forall|i: int| 0 <= i < a ==> (#[trigger] rows@[i])@ == Seq::new(vertical as nat, |b: int| 0usize),
            decreases horizontal - a,
        {
            let mut row: Vec<usize> = Vec::new();
            let mut b: usize = 0;
            while b < vertical
                invariant
                    b <= vertical,
                    row@ == Seq::new(b as nat, |k: int| 0usize),
                decreases vertical - b,
            {
                row.push(0);
                b += 1;
                proof {
                    assert(row@ =~= Seq::new(b as nat, |k: int| 0usize));
                }
            }
            rows.push(row);
            a += 1;
        }
        let mut temp = FrameWork { height: horizontal, width: vertical, stringify: rows };
        proof {
            assert(temp.cells() =~~= blank(horizontal as int, vertical as int));
        }
        temp.draw(0, 0, vertical - 1, horizontal - 1);
        temp
    }

    /// The characters that show the canvas.
    pub fn get_vec(&self) -> (ret: Vec<Vec<char>>)
        requires
            self.wf(),
        ensures
            table(ret) == glyphs(self.cells()),
    {
        let mut ret: Vec<Vec<char>> = Vec::new();
        let mut a: usize = 0;
        while a < self.stringify.len()
            invariant
                self.wf(),
                a <= self.stringify@.len(),
                ret@.len() == a,
                forall|i: int| 0 <= i < a ==> (#[trigger] ret@[i])@ == glyphs(self.cells())[i],
            decreases self.stringify@.len() - a,
        {
            let s = &self.stringify[a];
            let mut line: Vec<char> = Vec::new();
            let mut b: usize = 0;
            while b < s.len()
                invariant
                    self.wf(),
                    a < self.height,
                    s@ == self.stringify@[a as int]@,
                    b <= s@.len(),
                    line@ == glyphs(self.cells())[a as int].take(b as int),
                decreases s@.len() - b,
            {
                line.push(glyph_of(s[b]));
                b += 1;
                proof {
                    assert(line@ =~= glyphs(self.cells())[a as int].take(b as int));
                }
            }
            proof {
                assert(line@ =~= glyphs(self.cells())[a as int]);
            }
            ret.push(line);
            a += 1;
        }
        proof {
            assert(table(ret) =~~= glyphs(self.cells()));
        }
        ret
    }
}

/// The character that shows line bits `v`.
fn glyph_of(v: usize) -> (c: char)
    requires
        v < 16,
    ensures
        c == glyph(v),
{
    match v {
        0 => ' ',
        1 => '上',
        2 => '下',
        3 => '║',
        4 => '左',
        5 => '╚',
        6 => '╔',
        7 => '╠',
        8 => '右',
        9 => '╝',
        10 => '╗',
        11 => '╣',
        12 => '═',
        13 => '╩',
        14 => '╦',
        _ => '╬',
    }
}

/// Drawing a rectangle a second time changes nothing.
pub proof fn lemma_drawn_twice(c: Seq<Seq<usize>>, up: int, down: int, left: int, right: int)
    ensures
        drawn(drawn(c, up, down, left, right), up, down, left, right) == drawn(c, up, down, left, right),
{
    let once = drawn(c, up, down, left, right);
    assert forall|a: int, b: int| 0 <= a < c.len() && 0 <= b < c[a].len() implies
        #[trigger] drawn(once, up, down, left, right)[a][b] == once[a][b] by {
        let x = c[a][b];
        let m = border_bit(up, down, left, right, a, b);
        assert((x | m) | m == x | m) by (bit_vector);
    }
    assert(drawn(once, up, down, left, right) =~~= once);
}

} // verus!
