use vstd::prelude::*;

use crate::pancake::{disc_of, fits_on, size, Pancake};
use crate::cursor::Coord;

verus! {

/// The shape of one puzzle: how many plates stand on the table and how many
/// pancakes are in play. It is an explicit value, not a compile-time
/// constant, so that boards of other shapes can be built and tested.
///
/// A plate has one slot per pancake (the worst case is every pancake on one
/// plate), so the board is a `plates` by `pancakes` grid of slots.
#[derive(Clone, Copy, Debug, PartialEq, Eq, Structural)]
pub struct Config {
    pub plates: usize,
    pub pancakes: usize,
}

impl Config {
    /// A usable shape: at least one plate, and one to three pancakes
    /// (one of each size).
    pub open spec fn valid(self) -> bool {
        &&& 1 <= self.plates <= 127
        &&& 1 <= self.pancakes <= 3
    }
}

/// The grid of slots: one row per plate, slot 0 of a row at the plate's base.
pub struct Board {
    grid: Vec<Vec<Pancake>>,
}

impl View for Board {
    type V = Seq<Seq<Pancake>>;

    closed spec fn view(&self) -> Seq<Seq<Pancake>> {
        Seq::new(self.grid@.len(), |p: int| self.grid@[p]@)
    }
}

/// The grid has one row per plate and one slot per pancake in every row.
pub open spec fn dims(g: Seq<Seq<Pancake>>, cfg: Config) -> bool {
    &&& g.len() == cfg.plates
    &&& forall|p: int| 0 <= p < g.len() ==> (#[trigger] g[p]).len() == cfg.pancakes
}

/// Within one plate, no pancake floats: an occupied slot rests on an
/// occupied slot or on the base.
pub open spec fn row_contiguous(r: Seq<Pancake>) -> bool {
    forall|h: int, j: int|
        #![trigger r[h], r[j]]
        1 <= h < r.len() && j == h - 1 && r[h] != Pancake::Empty ==> r[j] != Pancake::Empty
}

/// Within one plate, sizes never grow from base to top.
pub open spec fn row_ordered(r: Seq<Pancake>) -> bool {
    forall|h: int, j: int|
        #![trigger r[h], r[j]]
        1 <= h < r.len() && j == h - 1 && r[h] != Pancake::Empty ==> size(r[h]) <= size(r[j])
}

pub open spec fn contiguous(g: Seq<Seq<Pancake>>) -> bool {
    forall|p: int| 0 <= p < g.len() ==> row_contiguous(#[trigger] g[p])
}

pub open spec fn ordered(g: Seq<Seq<Pancake>>) -> bool {
    forall|p: int| 0 <= p < g.len() ==> row_ordered(#[trigger] g[p])
}

/// Within one plate, sizes never grow from base to top, except possibly at
/// one slot.
pub open spec fn row_ordered_except(r: Seq<Pancake>, eh: int) -> bool {
    forall|h: int, j: int|
        #![trigger r[h], r[j]]
        1 <= h < r.len() && j == h - 1 && r[h] != Pancake::Empty && h != eh ==> size(r[h]) <= size(
            r[j],
        )
}

/// Sizes never grow from base to top, except possibly at one slot: the slot
/// where a pancake in hand is hovering while it is carried across plates.
pub open spec fn ordered_except(g: Seq<Seq<Pancake>>, ep: int, eh: int) -> bool {
    &&& forall|p: int| 0 <= p < g.len() && p != ep ==> row_ordered(#[trigger] g[p])
    &&& 0 <= ep < g.len() ==> row_ordered_except(g[ep], eh)
}

/// How many slots of one row hold exactly `d`.
pub open spec fn row_count(r: Seq<Pancake>, d: Pancake) -> nat
    decreases r.len(),
{
    if r.len() == 0 {
        0
    } else {
        row_count(r.drop_last(), d) + if r.last() == d {
            1nat
        } else {
            0nat
        }
    }
}

/// How many slots of the whole grid hold exactly `d`.
pub open spec fn grid_count(g: Seq<Seq<Pancake>>, d: Pancake) -> nat
    decreases g.len(),
{
    if g.len() == 0 {
        0
    } else {
        grid_count(g.drop_last(), d) + row_count(g.last(), d)
    }
}

/// The full set of pancakes is on the board: one of each size up to
/// `cfg.pancakes`, and none of any larger size.
pub open spec fn complete(g: Seq<Seq<Pancake>>, cfg: Config) -> bool {
    forall|s: int|
        1 <= s <= 3 ==> #[trigger] grid_count(g, disc_of(s)) == if s <= cfg.pancakes {
            1nat
        } else {
            0nat
        }
}

/// A well-formed board: right shape, nothing floats, sizes are non-increasing
/// from base to top, and the pancakes are exactly the initial set.
pub open spec fn wf(g: Seq<Seq<Pancake>>, cfg: Config) -> bool {
    &&& dims(g, cfg)
    &&& contiguous(g)
    &&& ordered(g)
    &&& complete(g, cfg)
}

/// The index of the highest occupied slot of a row, or -1 for an empty row.
pub open spec fn top_index(r: Seq<Pancake>) -> int
    decreases r.len(),
{
    if r.len() == 0 {
        -1
    } else if r.last() != Pancake::Empty {
        r.len() - 1
    } else {
        top_index(r.drop_last())
    }
}

/// The topmost pancake of a row, or the empty marker for an empty row.
pub open spec fn top_disc(r: Seq<Pancake>) -> Pancake {
    if top_index(r) >= 0 {
        r[top_index(r)]
    } else {
        Pancake::Empty
    }
}

/// What `top_index` means: it is in range, it points at a pancake when the
/// row has one, and every slot above it is empty.
pub proof fn lemma_top_index(r: Seq<Pancake>)
    ensures
        -1 <= top_index(r) < r.len(),
        top_index(r) >= 0 ==> r[top_index(r)] != Pancake::Empty,
        forall|j: int| top_index(r) < j < r.len() ==> r[j] == Pancake::Empty,
    decreases r.len(),
{
    if r.len() > 0 && r.last() == Pancake::Empty {
        lemma_top_index(r.drop_last());
        assert forall|j: int| top_index(r) < j < r.len() implies r[j] == Pancake::Empty by {
            if j < r.len() - 1 {
                assert(r.drop_last()[j] == r[j]);
            }
        }
    }
}

/// A slot known to hold a pancake, with everything above it empty, is the top.
pub proof fn lemma_top_index_is(r: Seq<Pancake>, t: int)
    requires
        0 <= t < r.len(),
        r[t] != Pancake::Empty,
        forall|j: int| t < j < r.len() ==> r[j] == Pancake::Empty,
    ensures
        top_index(r) == t,
{
    lemma_top_index(r);
}

/// A row with no pancake at all has no top.
pub proof fn lemma_top_index_empty(r: Seq<Pancake>)
    requires
        forall|j: int| 0 <= j < r.len() ==> r[j] == Pancake::Empty,
    ensures
        top_index(r) == -1,
{
    lemma_top_index(r);
}

/// Below an occupied slot of a contiguous row, every slot is occupied.
pub proof fn lemma_contiguous_below(r: Seq<Pancake>, j: int, k: int)
    requires
        row_contiguous(r),
        0 <= j <= k < r.len(),
        r[k] != Pancake::Empty,
    ensures
        r[j] != Pancake::Empty,
    decreases k - j,
{
    if j < k {
        assert(r[k - 1] != Pancake::Empty);
        lemma_contiguous_below(r, j, k - 1);
    }
}

/// Writing one slot of a row adds the written pancake to the count and
/// removes the overwritten one.
pub proof fn lemma_row_count_update(r: Seq<Pancake>, i: int, v: Pancake, d: Pancake)
    requires
        0 <= i < r.len(),
    ensures
        row_count(r.update(i, v), d) + (if r[i] == d {
            1nat
        } else {
            0nat
        }) == row_count(r, d) + (if v == d {
            1nat
        } else {
            0nat
        }),
    decreases r.len(),
{
    let r2 = r.update(i, v);
    if i == r.len() - 1 {
        assert(r2.drop_last() =~= r.drop_last());
    } else {
        assert(r2.drop_last() =~= r.drop_last().update(i, v));
        lemma_row_count_update(r.drop_last(), i, v, d);
    }
}

/// Replacing one row of the grid adds the new row's count and removes the
/// old row's.
pub proof fn lemma_grid_count_update(g: Seq<Seq<Pancake>>, p: int, row2: Seq<Pancake>, d: Pancake)
    requires
        0 <= p < g.len(),
    ensures
        grid_count(g.update(p, row2), d) + row_count(g[p], d) == grid_count(g, d) + row_count(
            row2,
            d,
        ),
    decreases g.len(),
{
    let g2 = g.update(p, row2);
    if p == g.len() - 1 {
        assert(g2.drop_last() =~= g.drop_last());
    } else {
        assert(g2.drop_last() =~= g.drop_last().update(p, row2));
        lemma_grid_count_update(g.drop_last(), p, row2, d);
    }
}

/// One grid cell rewritten, in place.
pub open spec fn cell_update(g: Seq<Seq<Pancake>>, p: int, h: int, v: Pancake) -> Seq<
    Seq<Pancake>,
> {
    g.update(p, g[p].update(h, v))
}

/// Rewriting one cell adds the written pancake to the grid count and removes
/// the overwritten one.
pub proof fn lemma_cell_count(g: Seq<Seq<Pancake>>, p: int, h: int, v: Pancake, d: Pancake)
    requires
        0 <= p < g.len(),
        0 <= h < g[p].len(),
    ensures
        grid_count(cell_update(g, p, h, v), d) + (if g[p][h] == d {
            1nat
        } else {
            0nat
        }) == grid_count(g, d) + (if v == d {
            1nat
        } else {
            0nat
        }),
{
    lemma_row_count_update(g[p], h, v, d);
    lemma_grid_count_update(g, p, g[p].update(h, v), d);
}

/// The grid after a pancake is relocated: the pancake standing at the old
/// cell is written into the new cell, then the old cell is emptied (in that
/// order, so relocating a cell onto itself empties it).
pub open spec fn moved_grid(g: Seq<Seq<Pancake>>, np: int, nh: int, op: int, oh: int) -> Seq<
    Seq<Pancake>,
> {
    let g1 = cell_update(g, np, nh, g[op][oh]);
    cell_update(g1, op, oh, Pancake::Empty)
}

/// Relocating a pancake into an empty cell conserves the count of every
/// pancake: one leaves the old cell and one arrives at the new cell.
pub proof fn lemma_moved_grid_count(
    g: Seq<Seq<Pancake>>,
    np: int,
    nh: int,
    op: int,
    oh: int,
    d: Pancake,
)
    requires
        0 <= np < g.len(),
        0 <= nh < g[np].len(),
        0 <= op < g.len(),
        0 <= oh < g[op].len(),
        !(np == op && nh == oh),
        g[np][nh] == Pancake::Empty,
    ensures
        grid_count(moved_grid(g, np, nh, op, oh), d) == grid_count(g, d),
{
    let x = g[op][oh];
    let g1 = cell_update(g, np, nh, x);
    lemma_cell_count(g, np, nh, x, d);
    assert(g1[op][oh] == x);
    assert(g1[op].len() == g[op].len());
    lemma_cell_count(g1, op, oh, Pancake::Empty, d);
}

/// An ordered row is ordered whatever exception is allowed.
pub proof fn lemma_row_ordered_except(r: Seq<Pancake>, eh: int)
    requires
        row_ordered(r),
    ensures
        row_ordered_except(r, eh),
{
}

/// Taking the topmost pancake off a plate keeps the plate contiguous, and
/// ordered even if the taken pancake was the one slot out of order.
pub proof fn lemma_remove_top(r: Seq<Pancake>, t: int)
    requires
        row_contiguous(r),
        t == top_index(r),
        0 <= t < r.len(),
        row_ordered_except(r, t),
    ensures
        row_contiguous(r.update(t, Pancake::Empty)),
        row_ordered(r.update(t, Pancake::Empty)),
{
    let r2 = r.update(t, Pancake::Empty);
    lemma_top_index(r);
    assert forall|h: int|
        1 <= h < r2.len() && #[trigger] r2[h] != Pancake::Empty implies r2[h - 1] != Pancake::Empty
            && size(r2[h]) <= size(r2[h - 1]) by {
        assert(h != t && r[h] != Pancake::Empty);
        assert(h < t);
        assert(r2[h] == r[h] && r2[h - 1] == r[h - 1]);
    }
}

/// Setting a pancake down on the first free slot of a plate keeps the plate
/// contiguous; that slot becomes the plate's top, the one slot that may now
/// be out of order - and is not, when the pancake fits on the old top.
pub proof fn lemma_add_top(r: Seq<Pancake>, x: Pancake)
    requires
        row_contiguous(r),
        row_ordered(r),
        x != Pancake::Empty,
        top_index(r) + 1 < r.len(),
    ensures
        ({
            let nh = top_index(r) + 1;
            let r2 = r.update(nh, x);
            &&& row_contiguous(r2)
            &&& row_ordered_except(r2, nh)
            &&& top_index(r2) == nh
            &&& (fits_on(x, top_disc(r)) ==> row_ordered(r2))
        }),
{
    let t = top_index(r);
    let nh = t + 1;
    let r2 = r.update(nh, x);
    lemma_top_index(r);
    assert forall|h: int, j: int|
        #![trigger r2[h], r2[j]]
        1 <= h < r2.len() && j == h - 1 && r2[h] != Pancake::Empty && h != nh implies r2[j]
            != Pancake::Empty && size(r2[h]) <= size(r2[j]) by {
        assert(r[h] != Pancake::Empty);
        assert(h <= t);
        assert(r2[h] == r[h] && r2[j] == r[j]);
    }
    if t >= 0 {
        assert(r2[nh - 1] == r[t]);
        assert(r2[nh] == x);
    }
    assert(row_contiguous(r2));
    assert forall|j: int| nh < j < r2.len() implies r2[j] == Pancake::Empty by {
        assert(r2[j] == r[j]);
    }
    lemma_top_index_is(r2, nh);
    if fits_on(x, top_disc(r)) {
        assert forall|h: int, j: int|
            #![trigger r2[h], r2[j]]
            1 <= h < r2.len() && j == h - 1 && r2[h] != Pancake::Empty implies size(r2[h]) <= size(
                r2[j],
            ) by {
            if h == nh {
                assert(r2[h] == x && r2[j] == r[t]);
                assert(top_disc(r) == r[t]);
            }
        }
    }
}

/// Dropping the topmost pancake of a plate onto the first real pancake
/// below it (or the base), when it fits there, leaves the plate contiguous
/// and fully ordered. When it already rests directly on that pancake,
/// nothing moves and the plate is already ordered.
pub proof fn lemma_settle(r: Seq<Pancake>, h: int)
    requires
        row_contiguous(r),
        h == top_index(r),
        0 <= h < r.len(),
        row_ordered_except(r, h),
        fits_on(r[h], top_disc(r.take(h))),
    ensures
        ({
            let tgt = top_index(r.take(h)) + 1;
            &&& 0 <= tgt <= h
            &&& (tgt == h ==> row_ordered(r))
            &&& (tgt < h ==> r[tgt] == Pancake::Empty)
            &&& (tgt < h ==> row_contiguous(r.update(tgt, r[h]).update(h, Pancake::Empty)))
            &&& (tgt < h ==> row_ordered(r.update(tgt, r[h]).update(h, Pancake::Empty)))
        }),
{
    let below = r.take(h);
    let k = top_index(below);
    let tgt = k + 1;
    let x = r[h];
    lemma_top_index(r);
    lemma_top_index(below);
    assert(forall|j: int| 0 <= j < h ==> below[j] == r[j]);
    assert(x != Pancake::Empty);
    if tgt == h {
        assert forall|hh: int, j: int|
            #![trigger r[hh], r[j]]
            1 <= hh < r.len() && j == hh - 1 && r[hh] != Pancake::Empty implies size(r[hh]) <= size(
                r[j],
            ) by {
            if hh == h {
                assert(top_disc(below) == below[k]);
                assert(r[j] == below[k]);
            }
        }
    } else {
        assert(k < tgt < h);
        assert(below[tgt] == Pancake::Empty);
        assert(r[tgt] == Pancake::Empty);
        let r2 = r.update(tgt, x).update(h, Pancake::Empty);
        assert forall|hh: int, j: int|
            #![trigger r2[hh], r2[j]]
            1 <= hh < r2.len() && j == hh - 1 && r2[hh] != Pancake::Empty implies r2[j]
                != Pancake::Empty && size(r2[hh]) <= size(r2[j]) by {
            if hh == tgt {
                assert(r2[hh] == x);
                assert(r2[j] == below[k]);
                assert(top_disc(below) == below[k]);
            } else {
                assert(hh != h && r[hh] != Pancake::Empty);
                assert(hh < tgt);
                assert(r2[hh] == r[hh] && r2[j] == r[j]);
            }
        }
    }
}

/// A row in which nothing holds `d` counts zero of it.
pub proof fn lemma_row_count_zero(r: Seq<Pancake>, d: Pancake)
    requires
        forall|j: int| 0 <= j < r.len() ==> r[j] != d,
    ensures
        row_count(r, d) == 0,
    decreases r.len(),
{
    if r.len() > 0 {
        assert forall|j: int| 0 <= j < r.drop_last().len() implies r.drop_last()[j] != d by {
            assert(r.drop_last()[j] == r[j]);
        }
        lemma_row_count_zero(r.drop_last(), d);
    }
}

/// A row in which exactly one slot holds `d` counts one of it.
pub proof fn lemma_row_count_single(r: Seq<Pancake>, i: int, d: Pancake)
    requires
        0 <= i < r.len(),
        r[i] == d,
        forall|j: int| 0 <= j < r.len() && j != i ==> r[j] != d,
    ensures
        row_count(r, d) == 1,
    decreases r.len(),
{
    if i == r.len() - 1 {
        assert forall|j: int| 0 <= j < r.drop_last().len() implies r.drop_last()[j] != d by {
            assert(r.drop_last()[j] == r[j]);
        }
        lemma_row_count_zero(r.drop_last(), d);
    } else {
        assert(r.drop_last()[i] == r[i]);
        assert forall|j: int| 0 <= j < r.drop_last().len() && j != i implies r.drop_last()[j]
            != d by {
            assert(r.drop_last()[j] == r[j]);
        }
        lemma_row_count_single(r.drop_last(), i, d);
    }
}

/// A grid none of whose rows holds `d` counts zero of it.
pub proof fn lemma_grid_count_zero(g: Seq<Seq<Pancake>>, d: Pancake)
    requires
        forall|p: int| 0 <= p < g.len() ==> row_count(#[trigger] g[p], d) == 0,
    ensures
        grid_count(g, d) == 0,
    decreases g.len(),
{
    if g.len() > 0 {
        assert forall|p: int| 0 <= p < g.drop_last().len() implies row_count(
            #[trigger] g.drop_last()[p],
            d,
        ) == 0 by {
            assert(g.drop_last()[p] == g[p]);
        }
        lemma_grid_count_zero(g.drop_last(), d);
    }
}

/// A slot holding `d` makes the count at least one.
pub proof fn lemma_row_count_ge_one(r: Seq<Pancake>, i: int, d: Pancake)
    requires
        0 <= i < r.len(),
        r[i] == d,
    ensures
        row_count(r, d) >= 1,
    decreases r.len(),
{
    if i < r.len() - 1 {
        assert(r.drop_last()[i] == r[i]);
        lemma_row_count_ge_one(r.drop_last(), i, d);
    }
}

/// Two slots holding `d` make the count at least two.
pub proof fn lemma_row_count_ge_two(r: Seq<Pancake>, i: int, j: int, d: Pancake)
    requires
        0 <= i < j < r.len(),
        r[i] == d,
        r[j] == d,
    ensures
        row_count(r, d) >= 2,
    decreases r.len(),
{
    if j == r.len() - 1 {
        assert(r.drop_last()[i] == r[i]);
        lemma_row_count_ge_one(r.drop_last(), i, d);
    } else {
        assert(r.drop_last()[i] == r[i]);
        assert(r.drop_last()[j] == r[j]);
        lemma_row_count_ge_two(r.drop_last(), i, j, d);
    }
}

/// Every slot holds exactly one of the four values, so the four counts sum
/// to the row's length.
pub proof fn lemma_row_count_total(r: Seq<Pancake>)
    ensures
        row_count(r, Pancake::Empty) + row_count(r, Pancake::Sm) + row_count(r, Pancake::M)
            + row_count(r, Pancake::Lg) == r.len(),
    decreases r.len(),
{
    if r.len() > 0 {
        lemma_row_count_total(r.drop_last());
    }
}

/// The grid count is at least one row's count.
pub proof fn lemma_grid_count_one_row(g: Seq<Seq<Pancake>>, p: int, d: Pancake)
    requires
        0 <= p < g.len(),
    ensures
        grid_count(g, d) >= row_count(g[p], d),
    decreases g.len(),
{
    if p < g.len() - 1 {
        assert(g.drop_last()[p] == g[p]);
        lemma_grid_count_one_row(g.drop_last(), p, d);
    }
}

/// The grid count is at least the sum of any two distinct rows' counts.
pub proof fn lemma_grid_count_two_rows(g: Seq<Seq<Pancake>>, p: int, q: int, d: Pancake)
    requires
        0 <= p < g.len(),
        0 <= q < g.len(),
        p != q,
    ensures
        grid_count(g, d) >= row_count(g[p], d) + row_count(g[q], d),
    decreases g.len(),
{
    if p == g.len() - 1 {
        assert(g.drop_last()[q] == g[q]);
        lemma_grid_count_one_row(g.drop_last(), q, d);
    } else if q == g.len() - 1 {
        assert(g.drop_last()[p] == g[p]);
        lemma_grid_count_one_row(g.drop_last(), p, d);
    } else {
        assert(g.drop_last()[p] == g[p]);
        assert(g.drop_last()[q] == g[q]);
        lemma_grid_count_two_rows(g.drop_last(), p, q, d);
    }
}

/// A plate that does not hold every pancake has a free slot. As long as
/// some pancake stands on another plate, a full set cannot fill this one:
/// its top is below the last slot.
pub proof fn lemma_room_on_other_plate(g: Seq<Seq<Pancake>>, cfg: Config, p: int, h: int, q: int)
    requires
        cfg.valid(),
        dims(g, cfg),
        contiguous(g),
        complete(g, cfg),
        0 <= p < g.len(),
        0 <= h < g[p].len(),
        0 <= q < g.len(),
        p != q,
        g[p][h] != Pancake::Empty,
    ensures
        top_index(g[q]) + 1 < cfg.pancakes,
{
    let n = cfg.pancakes as int;
    let rq = g[q];
    let rp = g[p];
    lemma_top_index(rq);
    if top_index(rq) + 1 >= n {
        let t = top_index(rq);
        assert(t == n - 1);
        assert(row_contiguous(rq));
        assert forall|j: int| 0 <= j < rq.len() implies rq[j] != Pancake::Empty by {
            lemma_contiguous_below(rq, j, t);
        }
        lemma_row_count_zero(rq, Pancake::Empty);
        lemma_row_count_total(rq);
        let d = rp[h];
        lemma_row_count_ge_one(rp, h, d);
        lemma_grid_count_two_rows(g, p, q, Pancake::Sm);
        lemma_grid_count_two_rows(g, p, q, Pancake::M);
        lemma_grid_count_two_rows(g, p, q, Pancake::Lg);
        assert(disc_of(1) == Pancake::Sm && disc_of(2) == Pancake::M && disc_of(3) == Pancake::Lg);
        assert(grid_count(g, Pancake::Sm) + grid_count(g, Pancake::M) + grid_count(g, Pancake::Lg)
            == n);
        assert(row_count(rq, Pancake::Sm) + row_count(rq, Pancake::M) + row_count(rq, Pancake::Lg)
            == n);
        assert(d == Pancake::Sm || d == Pancake::M || d == Pancake::Lg);
        assert(false);
    }
}

/// When every row but row `q` counts zero of `d`, the grid count is row
/// `q`'s count.
pub proof fn lemma_grid_count_single_row(g: Seq<Seq<Pancake>>, q: int, d: Pancake)
    requires
        0 <= q < g.len(),
        forall|p: int| 0 <= p < g.len() && p != q ==> row_count(#[trigger] g[p], d) == 0,
    ensures
        grid_count(g, d) == row_count(g[q], d),
    decreases g.len(),
{
    if q == g.len() - 1 {
        assert forall|p: int| 0 <= p < g.drop_last().len() implies row_count(
            #[trigger] g.drop_last()[p],
            d,
        ) == 0 by {
            assert(g.drop_last()[p] == g[p]);
        }
        lemma_grid_count_zero(g.drop_last(), d);
    } else {
        assert(g.drop_last()[q] == g[q]);
        assert forall|p: int| 0 <= p < g.drop_last().len() && p != q implies row_count(
            #[trigger] g.drop_last()[p],
            d,
        ) == 0 by {
            assert(g.drop_last()[p] == g[p]);
        }
        lemma_grid_count_single_row(g.drop_last(), q, d);
    }
}

/// The canonical start position: every pancake on plate 0, the largest at
/// the base, every other plate bare.
pub open spec fn init_grid(cfg: Config) -> Seq<Seq<Pancake>> {
    Seq::new(
        cfg.plates as nat,
        |p: int|
            Seq::new(
                cfg.pancakes as nat,
                |h: int|
                    if p == 0 {
                        disc_of(cfg.pancakes - h)
                    } else {
                        Pancake::Empty
                    },
            ),
    )
}

/// The start position has no floating pancake and no size inversion.
proof fn lemma_init_shape(cfg: Config)
    requires
        cfg.valid(),
    ensures
        contiguous(init_grid(cfg)),
        ordered(init_grid(cfg)),
{
    let g = init_grid(cfg);
    let n = cfg.pancakes as int;
    assert forall|p: int| 0 <= p < g.len() implies row_contiguous(#[trigger] g[p])
        && row_ordered(g[p]) by {
        if p == 0 {
            assert forall|h: int| 0 <= h < g[p].len() implies g[p][h] != Pancake::Empty by {
                assert(g[p][h] == disc_of(n - h));
                assert(1 <= n - h <= 3);
            }
            assert forall|h: int|
                1 <= h < g[p].len() && #[trigger] g[p][h] != Pancake::Empty implies size(g[p][h])
                <= size(g[p][h - 1]) by {
                assert(g[p][h] == disc_of(n - h) && g[p][h - 1] == disc_of(n - h + 1));
                assert(1 <= n - h <= 3 && 1 <= n - h + 1 <= 3);
            }
        } else {
            assert forall|h: int| 0 <= h < g[p].len() implies g[p][h] == Pancake::Empty by {}
        }
    }
}

/// The start position carries each size up to `cfg.pancakes` exactly once,
/// and no larger size.
proof fn lemma_init_count(cfg: Config, s: int)
    requires
        cfg.valid(),
        1 <= s <= 3,
    ensures
        grid_count(init_grid(cfg), disc_of(s)) == if s <= cfg.pancakes {
            1nat
        } else {
            0nat
        },
{
    let g = init_grid(cfg);
    let n = cfg.pancakes as int;
    let d = disc_of(s);
    assert(d != Pancake::Empty);
    assert forall|p: int| 0 <= p < g.len() && p != 0 implies row_count(#[trigger] g[p], d)
        == 0 by {
        assert forall|j: int| 0 <= j < g[p].len() implies g[p][j] != d by {
            assert(g[p][j] == Pancake::Empty);
        }
        lemma_row_count_zero(g[p], d);
    }
    if s <= n {
        assert(g[0][n - s] == d);
        assert forall|j: int| 0 <= j < g[0].len() && j != n - s implies g[0][j] != d by {
            assert(g[0][j] == disc_of(n - j));
            assert(1 <= n - j <= 3 && n - j != s);
        }
        lemma_row_count_single(g[0], n - s, d);
    } else {
        assert forall|j: int| 0 <= j < g[0].len() implies g[0][j] != d by {
            assert(g[0][j] == disc_of(n - j));
            assert(1 <= n - j <= 3 && n - j != s);
        }
        lemma_row_count_zero(g[0], d);
    }
    lemma_grid_count_single_row(g, 0, d);
}

/// The start position is a well-formed board.
pub proof fn lemma_init_wf(cfg: Config)
    requires
        cfg.valid(),
    ensures
        wf(init_grid(cfg), cfg),
{
    lemma_init_shape(cfg);
    assert forall|s: int| 1 <= s <= 3 implies #[trigger] grid_count(init_grid(cfg), disc_of(s))
        == (if s <= cfg.pancakes {
        1nat
    } else {
        0nat
    }) by {
        lemma_init_count(cfg, s);
    }
}

/// The board every plate of which, except the last, is bare, while the last
/// carries the pancakes in non-growing size order: the winning position.
pub open spec fn solved(g: Seq<Seq<Pancake>>, cfg: Config) -> bool {
    &&& forall|p: int, h: int|
        0 <= p < cfg.plates - 1 && 0 <= h < cfg.pancakes ==> #[trigger] g[p][h] == Pancake::Empty
    &&& forall|h: int|
        0 <= h < cfg.pancakes ==> #[trigger] g[cfg.plates - 1][h] == disc_of(cfg.pancakes - h)
}

impl Board {
    /// The pancake (or empty marker) standing at one slot.
    pub fn disc_at(&self, p: usize, h: usize) -> (r: Pancake)
        requires
            p < self@.len(),
            h < self@[p as int].len(),
        ensures
            r == self@[p as int][h as int],
    {
        self.grid[p][h]
    }

    /// Raw slot write. The caller is responsible for keeping the board
    /// well-formed; the move engine is the only legitimate caller.
    pub fn place(&mut self, p: usize, h: usize, d: Pancake)
        requires
            p < old(self)@.len(),
            h < old(self)@[p as int].len(),
        ensures
            final(self)@ == cell_update(old(self)@, p as int, h as int, d),
    {
        self.grid[p][h] = d;
        proof {
            assert(final(self)@ =~= cell_update(old(self)@, p as int, h as int, d));
        }
    }

    /// Raw slot erase: the slot becomes the empty marker.
    pub fn clear(&mut self, p: usize, h: usize)
        requires
            p < old(self)@.len(),
            h < old(self)@[p as int].len(),
        ensures
            final(self)@ == cell_update(old(self)@, p as int, h as int, Pancake::Empty),
    {
        self.place(p, h, Pancake::Empty);
    }

    /// The height of the highest occupied slot of a plate, or nothing for a
    /// bare plate: an `O(H)` scan from the top.
    pub fn top_height(&self, p: usize) -> (r: Option<usize>)
        requires
            p < self@.len(),
        ensures
            r == if top_index(self@[p as int]) >= 0 {
                Some(top_index(self@[p as int]) as usize)
            } else {
                None::<usize>
            },
    {
        let row_len = self.grid[p].len();
        let mut h = row_len;
        while h > 0
            invariant
                p < self@.len(),
                h <= row_len,
                row_len == self@[p as int].len(),
                forall|j: int| h <= j < row_len ==> self@[p as int][j] == Pancake::Empty,
            decreases h,
        {
            h = h - 1;
            if self.grid[p][h] != Pancake::Empty {
                proof {
                    lemma_top_index_is(self@[p as int], h as int);
                }
                return Some(h);
            }
        }
        proof {
            lemma_top_index_empty(self@[p as int]);
        }
        None
    }

    /// Does the cursor rest on a real pancake?
    pub fn is_at_pancake(&self, c: Coord) -> (r: bool)
        requires
            c.plate < self@.len(),
            c.height < self@[c.plate as int].len(),
        ensures
            r == (self@[c.plate as int][c.height as int] != Pancake::Empty),
    {
        self.disc_at(c.plate, c.height) != Pancake::Empty
    }

    /// Relocate the pancake at `old_c` to `new_c`: the new slot takes the
    /// pancake, then the old slot is emptied.
    pub fn update_pancake_location(&mut self, new_c: Coord, old_c: Coord)
        requires
            new_c.plate < old(self)@.len(),
            new_c.height < old(self)@[new_c.plate as int].len(),
            old_c.plate < old(self)@.len(),
            old_c.height < old(self)@[old_c.plate as int].len(),
        ensures
            final(self)@ == moved_grid(
                old(self)@,
                new_c.plate as int,
                new_c.height as int,
                old_c.plate as int,
                old_c.height as int,
            ),
    {
        let d = self.disc_at(old_c.plate, old_c.height);
        self.place(new_c.plate, new_c.height, d);
        self.place(old_c.plate, old_c.height, Pancake::Empty);
    }

    /// Is the board in the winning position: every pancake on the last
    /// plate, the largest at the base, every other plate bare?
    pub fn is_solved(&self, cfg: Config) -> (r: bool)
        requires
            cfg.valid(),
            dims(self@, cfg),
        ensures
            r == solved(self@, cfg),
    {
        let mut p: usize = 0;
        while p + 1 < cfg.plates
            invariant
                cfg.valid(),
                dims(self@, cfg),
                p < cfg.plates,
                forall|q: int, h: int|
                    0 <= q < p && 0 <= h < cfg.pancakes ==> #[trigger] self@[q][h]
                        == Pancake::Empty,
            decreases cfg.plates - p,
        {
            let mut h: usize = 0;
            while h < cfg.pancakes
                invariant
                    cfg.valid(),
                    dims(self@, cfg),
                    p + 1 < cfg.plates,
                    h <= cfg.pancakes,
                    forall|j: int| 0 <= j < h ==> self@[p as int][j] == Pancake::Empty,
                decreases cfg.pancakes - h,
            {
                if self.disc_at(p, h) != Pancake::Empty {
                    return false;
                }
                h = h + 1;
            }
            p = p + 1;
        }
        let last = cfg.plates - 1;
        let mut h: usize = 0;
        while h < cfg.pancakes
            invariant
                cfg.valid(),
                dims(self@, cfg),
                last == cfg.plates - 1,
                h <= cfg.pancakes,
                forall|q: int, hh: int|
                    0 <= q < cfg.plates - 1 && 0 <= hh < cfg.pancakes ==> #[trigger] self@[q][hh]
                        == Pancake::Empty,
                forall|j: int|
                    0 <= j < h ==> #[trigger] self@[last as int][j] == disc_of(cfg.pancakes - j),
            decreases cfg.pancakes - h,
        {
            let s = cfg.pancakes - h;
            let expected = if s == 1 {
                Pancake::Sm
            } else if s == 2 {
                Pancake::M
            } else {
                Pancake::Lg
            };
            proof {
                assert(expected == disc_of(cfg.pancakes - h));
            }
            if self.disc_at(last, h) != expected {
                return false;
            }
            h = h + 1;
        }
        true
    }
}

/// Build the canonical start position: every pancake on plate 0 in size
/// order, the largest at the base, and the cursor at the base of plate 0.
pub fn initialize(cfg: Config) -> (r: (Board, Coord))
    requires
        cfg.valid(),
    ensures
        r.0@ == init_grid(cfg),
        r.1 == (Coord { plate: 0, height: 0 }),
        wf(r.0@, cfg),
{
    let mut grid: Vec<Vec<Pancake>> = Vec::new();
    let mut p: usize = 0;
    while p < cfg.plates
        invariant
            cfg.valid(),
            p <= cfg.plates,
            grid@.len() == p,
            forall|q: int| 0 <= q < p ==> #[trigger] grid@[q]@ == init_grid(cfg)[q],
        decreases cfg.plates - p,
    {
        let mut row: Vec<Pancake> = Vec::new();
        let mut h: usize = 0;
        while h < cfg.pancakes
            invariant
                cfg.valid(),
                p < cfg.plates,
                h <= cfg.pancakes,
                row@.len() == h,
                forall|j: int| 0 <= j < h ==> #[trigger] row@[j] == init_grid(cfg)[p as int][j],
            decreases cfg.pancakes - h,
        {
            if p == 0 {
                let s = cfg.pancakes - h;
                let d = if s == 1 {
                    Pancake::Sm
                } else if s == 2 {
                    Pancake::M
                } else {
                    Pancake::Lg
                };
                proof {
                    assert(d == disc_of(cfg.pancakes - h));
                }
                row.push(d);
            } else {
                row.push(Pancake::Empty);
            }
            h = h + 1;
        }
        proof {
            assert(row@ =~= init_grid(cfg)[p as int]);
        }
        grid.push(row);
        p = p + 1;
    }
    let b = Board { grid };
    proof {
        assert(b@ =~= init_grid(cfg));
        lemma_init_wf(cfg);
    }
    (b, Coord { plate: 0, height: 0 })
}

} // verus!
