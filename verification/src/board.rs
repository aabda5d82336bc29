use vstd::prelude::*;

verus! {

broadcast use vstd::array::group_array_axioms;

/// Number of rows of the well.
pub const ROWS: usize = 20;

/// Number of columns of the well.
pub const COLS: usize = 10;

/// The well: `blockes[row][column]` is 0 where the square is empty.
pub type Board = [[u8; 10]; 20];

/// The well as a sequence of rows.
pub open spec fn grid(b: Board) -> Seq<Seq<u8>> {
    Seq::new(ROWS as nat, |x: int| b[x]@)
}

/// A row with no empty square.
pub open spec fn full_row(r: Seq<u8>) -> bool {
    forall|y: int| 0 <= y < r.len() ==> r[y] != 0
}

/// A row of `COLS` empty squares.
pub open spec fn empty_row() -> Seq<u8> {
    Seq::new(COLS as nat, |y: int| 0u8)
}

/// The rows of `g` that are not full, in their order.
pub open spec fn kept_rows(g: Seq<Seq<u8>>) -> Seq<Seq<u8>>
    decreases g.len(),
{
    if g.len() == 0 {
        Seq::empty()
    } else if full_row(g.last()) {
        kept_rows(g.drop_last())
    } else {
        kept_rows(g.drop_last()).push(g.last())
    }
}

/// How many rows of `g` are full.
pub open spec fn full_rows(g: Seq<Seq<u8>>) -> int {
    g.len() - kept_rows(g).len()
}

/// `g` with its full rows taken out and as many empty rows put on top:
/// the rows above a cleared row fall by one row for each.
pub open spec fn cleared(g: Seq<Seq<u8>>) -> Seq<Seq<u8>> {
    Seq::new(full_rows(g) as nat, |i: int| empty_row()) + kept_rows(g)
}

/// The kept rows are at most all the rows, and none of them is full.
pub proof fn lemma_kept_rows(g: Seq<Seq<u8>>)
    ensures
        kept_rows(g).len() <= g.len(),
        forall|i: int| 0 <= i < kept_rows(g).len() ==> !full_row(#[trigger] kept_rows(g)[i]),
    decreases g.len(),
{
    if g.len() > 0 {
        lemma_kept_rows(g.drop_last());
    }
}

/// Clearing keeps the number of rows, and leaves no full row when the rows
/// are `COLS` wide (an empty row is then not full).
pub proof fn lemma_cleared_has_no_full_row(g: Seq<Seq<u8>>)
    ensures
        cleared(g).len() == g.len(),
        forall|i: int| 0 <= i < cleared(g).len() ==> !full_row(#[trigger] cleared(g)[i]),
{
    lemma_kept_rows(g);
    assert forall|i: int| 0 <= i < cleared(g).len() implies !full_row(#[trigger] cleared(g)[i]) by {
        if i < full_rows(g) {
            assert(cleared(g)[i] == empty_row());
            assert(empty_row()[0] == 0);
        } else {
            assert(cleared(g)[i] == kept_rows(g)[i - full_rows(g)]);
        }
    }
}

/// Whether row `x` of the well has no empty square.
pub fn row_full(b: &Board, x: usize) -> (filled: bool)
    requires
        x < ROWS,
    ensures
        filled == full_row(b[x as int]@),
{
    let mut filled = true;
    for y in 0..COLS
        invariant
            x < ROWS,
            filled == forall|j: int| 0 <= j < y ==> b[x as int][j] != 0,
    {
        let here = b[x][y] != 0;
        filled = filled && here;
    }
    filled
}

/// Takes row `x` out of the well: the rows above it fall by one and an
/// empty row comes in on top.
pub fn remove_row(b: &mut Board, x: usize)
    requires
        x < ROWS,
    ensures
        final(b)[0]@ == empty_row(),
        forall|j: int| 1 <= j <= x ==> #[trigger] final(b)[j] == old(b)[j - 1],
        forall|j: int| x < j < ROWS ==> #[trigger] final(b)[j] == old(b)[j],
{
    let mut i = x;
    while i >= 1
        invariant
            i <= x < ROWS,
            forall|j: int| i < j <= x ==> #[trigger] b[j] == old(b)[j - 1],
            forall|j: int| 0 <= j <= i ==> #[trigger] b[j] == old(b)[j],
            forall|j: int| x < j < ROWS ==> #[trigger] b[j] == old(b)[j],
        decreases i,
    {
        b[i] = b[i - 1];
        i -= 1;
    }
    b[0] = [0u8; 10];
    assert(b[0]@ =~= empty_row());
}

/// Takes every full row out of the well, top to bottom, and returns how
/// many there were.
pub fn clear_full_rows(b: &mut Board) -> (count: u32)
    ensures
        grid(*final(b)) == cleared(grid(*old(b))),
        count == full_rows(grid(*old(b))),
        count <= ROWS,
{
    let ghost g0 = grid(*b);
    let mut cleanpath: u32 = 0;
    proof {
        assert(g0.take(0) =~= Seq::<Seq<u8>>::empty());
        assert(grid(*b).take(0) =~= cleared(g0.take(0)));
    }
    for x in 0..ROWS
        invariant
            g0 == grid(*old(b)),
            grid(*b).take(x as int) =~= cleared(g0.take(x as int)),
            forall|j: int| x <= j < ROWS ==> #[trigger] b[j] == old(b)[j],
            cleanpath == full_rows(g0.take(x as int)),
            cleanpath <= x,
    {
        let ghost before = *b;
        proof {
            lemma_kept_rows(g0.take(x as int));
            assert(g0.take(x + 1).drop_last() =~= g0.take(x as int));
            assert(g0.take(x + 1).last() == g0[x as int]);
            assert(g0[x as int] == b[x as int]@);
        }
        let filled = row_full(b, x);
        if filled {
            cleanpath += 1;
            remove_row(b, x);
            proof {
                assert(kept_rows(g0.take(x + 1)) == kept_rows(g0.take(x as int)));
                let c = full_rows(g0.take(x as int));
                assert forall|j: int| 0 <= j < x + 1 implies #[trigger] grid(*b).take(x + 1)[j]
                    == cleared(g0.take(x + 1))[j] by {
                    if j == 0 {
                        assert(grid(*b)[0] == empty_row());
                    } else {
                        assert(grid(*b)[j] == before[j - 1]@);
                        assert(grid(before).take(x as int)[j - 1] == cleared(g0.take(x as int))[j - 1]);
                    }
                }
                assert(grid(*b).take(x + 1) =~= cleared(g0.take(x + 1)));
            }
        } else {
            proof {
                assert(kept_rows(g0.take(x + 1)) == kept_rows(g0.take(x as int)).push(g0[x as int]));
                assert(grid(*b).take(x + 1) =~= grid(before).take(x as int).push(before[x as int]@));
                assert(grid(*b).take(x + 1) =~= cleared(g0.take(x + 1)));
            }
        }
    }
    proof {
        assert(g0.take(ROWS as int) =~= g0);
        assert(grid(*b).take(ROWS as int) =~= grid(*b));
    }
    cleanpath
}

/// Every square of the rows holds 0 or 1.
pub open spec fn binary_rows(g: Seq<Seq<u8>>) -> bool {
    forall|x: int, y: int| 0 <= x < g.len() && 0 <= y < g[x].len() ==> #[trigger] g[x][y] <= 1
}

/// Clearing rows that hold only 0 and 1 leaves rows that hold only 0 and 1.
pub proof fn lemma_cleared_binary(g: Seq<Seq<u8>>)
    requires
        binary_rows(g),
    ensures
        binary_rows(cleared(g)),
{
    lemma_kept_binary(g);
    lemma_kept_rows(g);
    let c = cleared(g);
    assert forall|x: int, y: int| 0 <= x < c.len() && 0 <= y < c[x].len() implies #[trigger] c[x][y] <= 1 by {
        if x < full_rows(g) {
            assert(c[x] == empty_row());
        } else {
            assert(c[x] == kept_rows(g)[x - full_rows(g)]);
        }
    }
}

proof fn lemma_kept_binary(g: Seq<Seq<u8>>)
    requires
        binary_rows(g),
    ensures
        binary_rows(kept_rows(g)),
    decreases g.len(),
{
    if g.len() > 0 {
        let d = g.drop_last();
        assert forall|x: int, y: int| 0 <= x < d.len() && 0 <= y < d[x].len() implies #[trigger] d[x][y] <= 1 by {
            assert(d[x] == g[x]);
        }
        lemma_kept_binary(d);
        let k = kept_rows(g);
        assert forall|x: int, y: int| 0 <= x < k.len() && 0 <= y < k[x].len() implies #[trigger] k[x][y] <= 1 by {
            if x < kept_rows(d).len() {
                assert(k[x] == kept_rows(d)[x]);
            } else {
                assert(k[x] == g.last());
                assert(g.last() == g[g.len() - 1]);
            }
        }
    }
}

/// Number of squares of row `r` that are not empty.
pub open spec fn row_filled(r: Seq<u8>) -> int
    decreases r.len(),
{
    if r.len() == 0 {
        0
    } else {
        row_filled(r.drop_last()) + if r.last() != 0 { 1int } else { 0int }
    }
}

/// Number of squares of the rows that are not empty.
pub open spec fn filled(g: Seq<Seq<u8>>) -> int
    decreases g.len(),
{
    if g.len() == 0 {
        0
    } else {
        filled(g.drop_last()) + row_filled(g.last())
    }
}

proof fn lemma_row_filled_full(r: Seq<u8>)
    requires
        full_row(r),
    ensures
        row_filled(r) == r.len(),
    decreases r.len(),
{
    if r.len() > 0 {
        assert(full_row(r.drop_last()));
        lemma_row_filled_full(r.drop_last());
    }
}

proof fn lemma_row_filled_zero(n: nat)
    ensures
        row_filled(Seq::new(n, |y: int| 0u8)) == 0,
    decreases n,
{
    if n > 0 {
        assert(Seq::new(n, |y: int| 0u8).drop_last() =~= Seq::new((n - 1) as nat, |y: int| 0u8));
        lemma_row_filled_zero((n - 1) as nat);
    }
}

proof fn lemma_filled_concat(a: Seq<Seq<u8>>, b: Seq<Seq<u8>>)
    ensures
        filled(a + b) == filled(a) + filled(b),
    decreases b.len(),
{
    if b.len() == 0 {
        assert(a + b =~= a);
    } else {
        assert((a + b).drop_last() =~= a + b.drop_last());
        assert((a + b).last() == b.last());
        lemma_filled_concat(a, b.drop_last());
    }
}

proof fn lemma_filled_empty_rows(n: nat)
    ensures
        filled(Seq::new(n, |i: int| empty_row())) == 0,
    decreases n,
{
    if n > 0 {
        assert(Seq::new(n, |i: int| empty_row()).drop_last() =~= Seq::new((n - 1) as nat, |i: int| empty_row()));
        lemma_filled_empty_rows((n - 1) as nat);
        lemma_row_filled_zero(COLS as nat);
    }
}

proof fn lemma_filled_kept(g: Seq<Seq<u8>>)
    requires
        forall|x: int| 0 <= x < g.len() ==> (#[trigger] g[x]).len() == COLS,
    ensures
        filled(kept_rows(g)) == filled(g) - COLS * full_rows(g),
    decreases g.len(),
{
    if g.len() > 0 {
        let d = g.drop_last();
        assert forall|x: int| 0 <= x < d.len() implies (#[trigger] d[x]).len() == COLS by {
            assert(d[x] == g[x]);
        }
        lemma_filled_kept(d);
        lemma_kept_rows(d);
        if full_row(g.last()) {
            assert(g.last() == g[g.len() - 1]);
            lemma_row_filled_full(g.last());
        } else {
            assert(kept_rows(g).drop_last() =~= kept_rows(d));
        }
    }
}

/// Clearing takes `COLS` filled squares out of the well for each full row
/// and leaves every other square: the filled squares after clearing are
/// those before, less `COLS` for each full row.
pub proof fn lemma_cleared_filled(g: Seq<Seq<u8>>)
    requires
        forall|x: int| 0 <= x < g.len() ==> (#[trigger] g[x]).len() == COLS,
    ensures
        filled(cleared(g)) == filled(g) - COLS * full_rows(g),
{
    lemma_kept_rows(g);
    lemma_filled_kept(g);
    lemma_filled_empty_rows(full_rows(g) as nat);
    lemma_filled_concat(Seq::new(full_rows(g) as nat, |i: int| empty_row()), kept_rows(g));
}

} // verus!
