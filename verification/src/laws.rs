use vstd::prelude::*;

use crate::board::{
    contiguous, dims, grid_count, init_grid, lemma_grid_count_single_row, lemma_init_wf,
    lemma_row_count_ge_one, lemma_row_count_ge_two, lemma_row_count_total, lemma_row_count_zero,
    lemma_top_index, ordered, row_count, solved, top_disc, top_index, wf, Config,
};
use crate::cursor::{valid_coord, Coord};
use crate::engine::{
    drop_ok, game_inv, lemma_step_preserves, pickup_ok, step_spec, Command, Mode,
};
use crate::pancake::{disc_of, fits_on, size, Pancake};

verus! {

/// The state after a sequence of commands, each one fed through the
/// transition relation in turn.
pub open spec fn run_spec(
    m: Mode,
    g: Seq<Seq<Pancake>>,
    c: Coord,
    cfg: Config,
    cmds: Seq<Command>,
) -> (Mode, Seq<Seq<Pancake>>, Coord)
    decreases cmds.len(),
{
    if cmds.len() == 0 {
        (m, g, c)
    } else {
        let s = step_spec(m, g, c, cfg, cmds[0]);
        run_spec(s.0, s.1, s.2, cfg, cmds.drop_first())
    }
}

/// The freshly initialized game satisfies the game invariant.
pub proof fn lemma_init_inv(cfg: Config)
    requires
        cfg.valid(),
    ensures
        game_inv(Mode::Standard, init_grid(cfg), Coord { plate: 0, height: 0 }, cfg),
{
    lemma_init_wf(cfg);
}

/// The game invariant holds after any sequence of commands from any state
/// that satisfies it.
pub proof fn lemma_run_inv(
    m: Mode,
    g: Seq<Seq<Pancake>>,
    c: Coord,
    cfg: Config,
    cmds: Seq<Command>,
)
    requires
        game_inv(m, g, c, cfg),
    ensures
        ({
            let s = run_spec(m, g, c, cfg, cmds);
            game_inv(s.0, s.1, s.2, cfg)
        }),
    decreases cmds.len(),
{
    if cmds.len() > 0 {
        lemma_step_preserves(m, g, c, cfg, cmds[0]);
        let s = step_spec(m, g, c, cfg, cmds[0]);
        lemma_run_inv(s.0, s.1, s.2, cfg, cmds.drop_first());
    }
}

/// Pancake conservation: after any sequence of commands from the start
/// position, the pancakes on the board are exactly the initial multiset -
/// the count of every real pancake equals its count at initialization.
pub proof fn lemma_disc_conservation(cfg: Config, cmds: Seq<Command>)
    requires
        cfg.valid(),
    ensures
        ({
            let s = run_spec(
                Mode::Standard,
                init_grid(cfg),
                Coord { plate: 0, height: 0 },
                cfg,
                cmds,
            );
            forall|d: Pancake|
                d != Pancake::Empty ==> #[trigger] grid_count(s.1, d) == grid_count(
                    init_grid(cfg),
                    d,
                )
        }),
{
    lemma_init_inv(cfg);
    lemma_run_inv(Mode::Standard, init_grid(cfg), Coord { plate: 0, height: 0 }, cfg, cmds);
    let s = run_spec(Mode::Standard, init_grid(cfg), Coord { plate: 0, height: 0 }, cfg, cmds);
    assert forall|d: Pancake| d != Pancake::Empty implies #[trigger] grid_count(s.1, d)
        == grid_count(init_grid(cfg), d) by {
        let sz = size(d);
        assert(d == disc_of(sz));
        assert(grid_count(s.1, disc_of(sz)) == if sz <= cfg.pancakes {
            1nat
        } else {
            0nat
        });
        assert(grid_count(init_grid(cfg), disc_of(sz)) == if sz <= cfg.pancakes {
            1nat
        } else {
            0nat
        });
    }
}

/// Stacking invariant: in every state reachable from the start position the
/// board is contiguous (no pancake floats), and whenever no pancake is in
/// hand - the mode is `Standard` or `Complete` - sizes are non-increasing
/// from base to top on every plate. (While one is in hand it may hover over
/// a smaller pancake: a carry is not size-checked until the drop.)
pub proof fn lemma_stacking_invariant(cfg: Config, cmds: Seq<Command>)
    requires
        cfg.valid(),
    ensures
        ({
            let s = run_spec(
                Mode::Standard,
                init_grid(cfg),
                Coord { plate: 0, height: 0 },
                cfg,
                cmds,
            );
            &&& contiguous(s.1)
            &&& (s.0 == Mode::Standard || s.0 == Mode::Complete) ==> ordered(s.1)
        }),
{
    lemma_init_inv(cfg);
    lemma_run_inv(Mode::Standard, init_grid(cfg), Coord { plate: 0, height: 0 }, cfg, cmds);
}

/// Pickup legality: an `Activate` in `Standard` mode, made while the top
/// pancake of the plate to the cursor's right is strictly smaller than the
/// pancake that would be lifted, changes neither mode nor board nor cursor.
pub proof fn lemma_pickup_legality(g: Seq<Seq<Pancake>>, c: Coord, cfg: Config)
    requires
        game_inv(Mode::Standard, g, c, cfg),
        c.plate + 1 < cfg.plates,
        top_index(g[c.plate as int + 1]) >= 0,
        size(g[c.plate as int + 1][top_index(g[c.plate as int + 1])]) < size(
            top_disc(g[c.plate as int]),
        ),
    ensures
        step_spec(Mode::Standard, g, c, cfg, Command::Activate) == (Mode::Standard, g, c),
{
    lemma_top_index(g[c.plate as int + 1]);
    assert(!fits_on(top_disc(g[c.plate as int]), top_disc(g[c.plate as int + 1])));
    assert(!pickup_ok(g, cfg, c));
}

/// Drop legality: an `Activate` in `Select` mode, made while the first real
/// pancake below the one in hand is strictly smaller than it, changes
/// neither mode nor board nor cursor.
pub proof fn lemma_drop_legality(g: Seq<Seq<Pancake>>, c: Coord, cfg: Config)
    requires
        game_inv(Mode::Select, g, c, cfg),
        top_index(g[c.plate as int].take(c.height as int)) >= 0,
        size(g[c.plate as int].take(c.height as int)[top_index(g[c.plate as int].take(c.height as int))])
            < size(g[c.plate as int][c.height as int]),
    ensures
        step_spec(Mode::Select, g, c, cfg, Command::Activate) == (Mode::Select, g, c),
{
    lemma_top_index(g[c.plate as int].take(c.height as int));
    assert(!fits_on(
        g[c.plate as int][c.height as int],
        top_disc(g[c.plate as int].take(c.height as int)),
    ));
    assert(!drop_ok(g, c));
}

/// Bounds: from a state satisfying the game invariant, no command moves the
/// cursor off the board.
pub proof fn lemma_cursor_bounds(m: Mode, g: Seq<Seq<Pancake>>, c: Coord, cfg: Config, cmd: Command)
    requires
        game_inv(m, g, c, cfg),
    ensures
        valid_coord(step_spec(m, g, c, cfg, cmd).2, cfg),
{
    lemma_step_preserves(m, g, c, cfg, cmd);
}

/// Win detection: on a well-formed board, the winning position holds
/// exactly when every pancake is on the last plate - the full set and the
/// stacking invariant then force the descending size order from base to top.
pub proof fn lemma_win_detection(g: Seq<Seq<Pancake>>, cfg: Config)
    requires
        wf(g, cfg),
        cfg.valid(),
    ensures
        solved(g, cfg) <==> (forall|p: int, h: int|
            0 <= p < cfg.plates - 1 && 0 <= h < cfg.pancakes ==> #[trigger] g[p][h]
                == Pancake::Empty),
{
    let n = cfg.pancakes as int;
    let last = cfg.plates - 1;
    let row = g[last as int];
    if forall|p: int, h: int|
        0 <= p < cfg.plates - 1 && 0 <= h < cfg.pancakes ==> #[trigger] g[p][h] == Pancake::Empty {
        // every count concentrates on the last plate
        assert forall|s: int| 1 <= s <= 3 implies #[trigger] row_count(row, disc_of(s)) == (
        if s <= n {
            1nat
        } else {
            0nat
        }) by {
            assert forall|p: int|
                0 <= p < g.len() && p != last implies row_count(#[trigger] g[p], disc_of(s))
                == 0 by {
                assert forall|j: int| 0 <= j < g[p].len() implies g[p][j] != disc_of(s) by {
                    assert(g[p][j] == Pancake::Empty);
                }
                lemma_row_count_zero(g[p], disc_of(s));
            }
            lemma_grid_count_single_row(g, last as int, disc_of(s));
        }
        // the last plate has no empty slot: the four counts fill its length
        lemma_row_count_total(row);
        assert(row_count(row, Pancake::Sm) == row_count(row, disc_of(1)));
        assert(row_count(row, Pancake::M) == row_count(row, disc_of(2)));
        assert(row_count(row, Pancake::Lg) == row_count(row, disc_of(3)));
        assert(row_count(row, Pancake::Empty) == 0);
        assert forall|h: int| 0 <= h < n implies #[trigger] row[h] != Pancake::Empty by {
            if row[h] == Pancake::Empty {
                lemma_row_count_ge_one(row, h, Pancake::Empty);
            }
        }
        // every size on the plate is within the set actually in play
        assert forall|h: int| 0 <= h < n implies 1 <= size(#[trigger] row[h]) <= n by {
            let d = row[h];
            assert(d == disc_of(size(d)));
            if size(d) > n {
                lemma_row_count_ge_one(row, h, d);
            }
        }
        // sizes strictly decrease upward: two equal sizes would be the same
        // pancake twice
        assert forall|h: int| 1 <= h < n implies size(#[trigger] row[h]) < size(row[h - 1]) by {
            assert(size(row[h]) <= size(row[h - 1]));
            if size(row[h]) == size(row[h - 1]) {
                assert(row[h] == row[h - 1]);
                lemma_row_count_ge_two(row, h - 1, h, row[h]);
                assert(row_count(row, disc_of(size(row[h]))) <= 1);
            }
        }
        // a strictly decreasing run of n sizes within 1..n is forced
        assert forall|h: int| 0 <= h < n implies #[trigger] row[h] == disc_of(n - h) by {
            if n == 2 {
                assert(size(row[1]) < size(row[0]));
            } else if n == 3 {
                assert(size(row[1]) < size(row[0]));
                assert(size(row[2]) < size(row[1]));
            }
            assert(size(row[h]) == n - h);
        }
        assert(solved(g, cfg));
    }
}

/// The start position is not yet won when there is more than one plate:
/// the largest pancake still sits at the base of the first plate.
pub proof fn lemma_initial_not_solved(cfg: Config)
    requires
        cfg.valid(),
        cfg.plates >= 2,
    ensures
        !solved(init_grid(cfg), cfg),
{
    let g = init_grid(cfg);
    assert(g[0][0] == disc_of(cfg.pancakes as int));
    assert(g[0][0] != Pancake::Empty);
}

} // verus!
