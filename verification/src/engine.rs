use vstd::prelude::*;

use crate::board::{
    complete, contiguous, dims, grid_count, init_grid, initialize, lemma_add_top, lemma_init_wf,
    lemma_moved_grid_count, lemma_remove_top, lemma_room_on_other_plate, lemma_row_ordered_except,
    lemma_settle,
    lemma_top_index, lemma_top_index_empty, lemma_top_index_is, moved_grid, ordered,
    ordered_except, row_contiguous, row_ordered, row_ordered_except, solved, top_disc, top_index,
    wf, Board, Config,
};
use crate::cursor::{
    can_move, lemma_snap_spec_valid, moved, snap_spec, snap_to_pancake, valid_coord, Coord,
    Direction,
};
use crate::pancake::{fits_on, is_smaller_than, Pancake};

verus! {

/// The mode the game is in. `Menu` wraps the puzzle; inside it, the player
/// browses in `Standard`, carries a pancake in `Select`, and rests in
/// `Complete` once the board is solved.
#[derive(Clone, Copy, Debug, PartialEq, Eq, Structural)]
pub enum Mode {
    Menu,
    Standard,
    Select,
    Complete,
}

/// One abstract input, already decoded from whatever device produced it.
#[derive(Clone, Copy, Debug, PartialEq, Eq, Structural)]
pub enum Command {
    MoveUp,
    MoveDown,
    MoveLeft,
    MoveRight,
    Activate,
    Cancel,
}

/// A pickup is legal: the cursor rests on a pancake, a plate stands to the
/// right with a free slot, and that plate's top pancake is not smaller than
/// the one being lifted (the lifted pancake is the topmost of the cursor's
/// plate). On a well-formed board the free-slot condition always holds; it
/// makes the check total on any board of the right shape.
pub open spec fn pickup_ok(g: Seq<Seq<Pancake>>, cfg: Config, c: Coord) -> bool {
    let p = c.plate as int;
    &&& g[p][c.height as int] != Pancake::Empty
    &&& c.plate + 1 < cfg.plates
    &&& top_index(g[p + 1]) + 1 < cfg.pancakes
    &&& fits_on(top_disc(g[p]), top_disc(g[p + 1]))
}

/// The board and cursor after a legal pickup: the topmost pancake of the
/// cursor's plate comes to hover on top of the plate to the right, and the
/// cursor follows it there.
pub open spec fn after_pickup(g: Seq<Seq<Pancake>>, cfg: Config, c: Coord) -> (
    Seq<Seq<Pancake>>,
    Coord,
) {
    let p = c.plate as int;
    let t = top_index(g[p]);
    let nh = top_index(g[p + 1]) + 1;
    (
        moved_grid(g, p + 1, nh, p, t),
        Coord { plate: (c.plate + 1) as usize, height: nh as usize },
    )
}

/// The plate a carried pancake is heading for.
pub open spec fn carry_dest(c: Coord, d: Direction) -> int {
    if d == Direction::Left {
        c.plate - 1
    } else {
        c.plate + 1
    }
}

/// A carry step is possible: the destination plate exists and has a free
/// slot. No size check is made while a pancake rides the cursor: the one
/// binding legality check is the one made when it is dropped.
pub open spec fn carry_ok(g: Seq<Seq<Pancake>>, cfg: Config, c: Coord, d: Direction) -> bool {
    &&& can_move(c, cfg, d)
    &&& top_index(g[carry_dest(c, d)]) + 1 < cfg.pancakes
}

/// The board and cursor after a carry step: the pancake in hand hovers on
/// top of the neighbouring plate and the cursor follows it.
pub open spec fn after_carry(g: Seq<Seq<Pancake>>, cfg: Config, c: Coord, d: Direction) -> (
    Seq<Seq<Pancake>>,
    Coord,
) {
    let p2 = carry_dest(c, d);
    let nh = top_index(g[p2]) + 1;
    (
        moved_grid(g, p2, nh, c.plate as int, c.height as int),
        Coord { plate: p2 as usize, height: nh as usize },
    )
}

/// The slot where a dropped pancake would come to rest: directly above the
/// first real pancake below the hand, or on the base if none is there.
pub open spec fn drop_target(g: Seq<Seq<Pancake>>, c: Coord) -> int {
    top_index(g[c.plate as int].take(c.height as int)) + 1
}

/// A drop is legal: the first real pancake below the hand (if any) is not
/// smaller than the one being dropped.
pub open spec fn drop_ok(g: Seq<Seq<Pancake>>, c: Coord) -> bool {
    fits_on(
        g[c.plate as int][c.height as int],
        top_disc(g[c.plate as int].take(c.height as int)),
    )
}

/// The board and cursor after a legal drop: the pancake settles at the drop
/// target and the hand steps one slot toward the base.
pub open spec fn after_drop(g: Seq<Seq<Pancake>>, cfg: Config, c: Coord) -> (
    Seq<Seq<Pancake>>,
    Coord,
) {
    let p = c.plate as int;
    let h = c.height as int;
    let tgt = drop_target(g, c);
    let g2 = if tgt == h {
        g
    } else {
        moved_grid(g, p, tgt, p, h)
    };
    let c2 = if c.height >= 1 {
        Coord { plate: c.plate, height: (c.height - 1) as usize }
    } else {
        c
    };
    (g2, c2)
}

/// Where the cursor rests after a sideways step in `Standard` mode: the
/// step itself, then a slide down to the plate's topmost pancake.
pub open spec fn step_sideways(g: Seq<Seq<Pancake>>, cfg: Config, c: Coord, d: Direction) -> Coord {
    if can_move(c, cfg, d) {
        snap_spec(g, cfg, moved(c, d), Direction::Down, cfg.pancakes as nat)
    } else {
        c
    }
}

/// The complete transition relation of the game: what one command does to
/// the mode, the board and the cursor. Every illegal request is a silent
/// no-op; nothing is clamped.
pub open spec fn step_spec(
    m: Mode,
    g: Seq<Seq<Pancake>>,
    c: Coord,
    cfg: Config,
    cmd: Command,
) -> (Mode, Seq<Seq<Pancake>>, Coord) {
    match m {
        Mode::Menu => match cmd {
            Command::Activate => (
                Mode::Standard,
                init_grid(cfg),
                Coord { plate: 0, height: 0 },
            ),
            _ => (Mode::Menu, g, c),
        },
        Mode::Standard => match cmd {
            Command::Cancel => (Mode::Menu, g, c),
            Command::MoveUp => (
                Mode::Standard,
                g,
                if can_move(c, cfg, Direction::Up) {
                    moved(c, Direction::Up)
                } else {
                    c
                },
            ),
            Command::MoveDown => (
                Mode::Standard,
                g,
                if can_move(c, cfg, Direction::Down) {
                    moved(c, Direction::Down)
                } else {
                    c
                },
            ),
            Command::MoveLeft => (Mode::Standard, g, step_sideways(g, cfg, c, Direction::Left)),
            Command::MoveRight => (Mode::Standard, g, step_sideways(g, cfg, c, Direction::Right)),
            Command::Activate => if pickup_ok(g, cfg, c) {
                (Mode::Select, after_pickup(g, cfg, c).0, after_pickup(g, cfg, c).1)
            } else {
                (Mode::Standard, g, c)
            },
        },
        Mode::Select => match cmd {
            Command::Cancel => (Mode::Menu, g, c),
            Command::MoveUp => (Mode::Select, g, c),
            Command::MoveDown => (Mode::Select, g, c),
            Command::MoveLeft => if carry_ok(g, cfg, c, Direction::Left) {
                (
                    Mode::Select,
                    after_carry(g, cfg, c, Direction::Left).0,
                    after_carry(g, cfg, c, Direction::Left).1,
                )
            } else {
                (Mode::Select, g, c)
            },
            Command::MoveRight => if carry_ok(g, cfg, c, Direction::Right) {
                (
                    Mode::Select,
                    after_carry(g, cfg, c, Direction::Right).0,
                    after_carry(g, cfg, c, Direction::Right).1,
                )
            } else {
                (Mode::Select, g, c)
            },
            Command::Activate => if drop_ok(g, c) {
                (
                    if solved(after_drop(g, cfg, c).0, cfg) {
                        Mode::Complete
                    } else {
                        Mode::Standard
                    },
                    after_drop(g, cfg, c).0,
                    snap_spec(
                        after_drop(g, cfg, c).0,
                        cfg,
                        after_drop(g, cfg, c).1,
                        Direction::Down,
                        cfg.pancakes as nat,
                    ),
                )
            } else {
                (Mode::Select, g, c)
            },
        },
        Mode::Complete => match cmd {
            Command::Activate => (Mode::Menu, g, c),
            Command::Cancel => (Mode::Menu, g, c),
            _ => (Mode::Complete, g, c),
        },
    }
}

/// The invariant every reachable game state keeps. The board always has the
/// right shape, nothing floats, and the full pancake set is present. Sizes
/// are non-increasing on every plate, with one licensed exception: the slot
/// under the cursor while a pancake is in hand (`Select`), or still in hand
/// after a cancel (`Menu`) - a carried pancake may hover over a smaller one
/// until the drop check either settles or rejects it.
pub open spec fn game_inv(m: Mode, g: Seq<Seq<Pancake>>, c: Coord, cfg: Config) -> bool {
    &&& cfg.valid()
    &&& dims(g, cfg)
    &&& contiguous(g)
    &&& complete(g, cfg)
    &&& valid_coord(c, cfg)
    &&& match m {
        Mode::Standard => ordered(g),
        Mode::Complete => ordered(g),
        Mode::Select => ordered_except(g, c.plate as int, c.height as int) && c.height as int
            == top_index(g[c.plate as int]),
        Mode::Menu => ordered_except(g, c.plate as int, c.height as int),
    }
}

/// An unconditionally ordered board is ordered whatever exception is allowed.
pub proof fn lemma_ordered_implies_except(g: Seq<Seq<Pancake>>, ep: int, eh: int)
    requires
        ordered(g),
    ensures
        ordered_except(g, ep, eh),
{
    if 0 <= ep < g.len() {
        lemma_row_ordered_except(g[ep], eh);
    }
}

/// Relocating the topmost pancake of one plate onto the top of another
/// keeps the board's shape, its contiguity and its pancake counts, and
/// leaves sizes non-increasing everywhere except possibly at the slot the
/// pancake now hovers in, which becomes the new top of its plate.
pub proof fn lemma_relocate(g: Seq<Seq<Pancake>>, cfg: Config, op: int, oh: int, np: int)
    requires
        cfg.valid(),
        dims(g, cfg),
        contiguous(g),
        0 <= op < g.len(),
        0 <= np < g.len(),
        np != op,
        oh == top_index(g[op]),
        0 <= oh,
        top_index(g[np]) + 1 < cfg.pancakes,
        ordered_except(g, op, oh),
    ensures
        ({
            let nh = top_index(g[np]) + 1;
            let g2 = moved_grid(g, np, nh, op, oh);
            &&& dims(g2, cfg)
            &&& contiguous(g2)
            &&& ordered_except(g2, np, nh)
            &&& forall|d: Pancake| #[trigger] grid_count(g2, d) == grid_count(g, d)
            &&& top_index(g2[np]) == nh
        }),
{
    let t2 = top_index(g[np]);
    let nh = t2 + 1;
    let x = g[op][oh];
    let g2 = moved_grid(g, np, nh, op, oh);
    let row_o2 = g[op].update(oh, Pancake::Empty);
    let row_n2 = g[np].update(nh, x);
    lemma_top_index(g[op]);
    lemma_top_index(g[np]);
    assert(x != Pancake::Empty);
    assert(g[np][nh] == Pancake::Empty);
    assert(g2 =~= g.update(np, row_n2).update(op, row_o2));
    assert forall|d: Pancake| #[trigger] grid_count(g2, d) == grid_count(g, d) by {
        lemma_moved_grid_count(g, np, nh, op, oh, d);
    }
    lemma_remove_top(g[op], oh);
    lemma_add_top(g[np], x);
    assert forall|p: int| 0 <= p < g2.len() implies row_contiguous(#[trigger] g2[p]) by {
        if p != op && p != np {
            assert(g2[p] == g[p]);
            assert(row_contiguous(g[p]));
        }
    }
    assert forall|p: int| 0 <= p < g2.len() && p != np implies row_ordered(#[trigger] g2[p]) by {
        if p != op {
            assert(g2[p] == g[p]);
        }
    }
    assert(g2[np] == row_n2);
    assert(top_index(g2[np]) == nh);
    assert(row_ordered_except(g2[np], nh));
}

/// A legal drop settles the pancake in hand onto the first real pancake
/// below it (or the base), after which the whole board is ordered again;
/// shape, contiguity and pancake counts are kept.
pub proof fn lemma_drop(g: Seq<Seq<Pancake>>, cfg: Config, c: Coord)
    requires
        cfg.valid(),
        dims(g, cfg),
        contiguous(g),
        valid_coord(c, cfg),
        c.height as int == top_index(g[c.plate as int]),
        ordered_except(g, c.plate as int, c.height as int),
        drop_ok(g, c),
    ensures
        ({
            let g2 = after_drop(g, cfg, c).0;
            let c2 = after_drop(g, cfg, c).1;
            &&& dims(g2, cfg)
            &&& contiguous(g2)
            &&& ordered(g2)
            &&& forall|d: Pancake| #[trigger] grid_count(g2, d) == grid_count(g, d)
            &&& valid_coord(c2, cfg)
        }),
{
    let p = c.plate as int;
    let h = c.height as int;
    let row = g[p];
    let tgt = drop_target(g, c);
    let x = row[h];
    let g2 = after_drop(g, cfg, c).0;
    lemma_top_index(row);
    lemma_settle(row, h);
    if tgt == h {
        assert(g2 == g);
        assert forall|pp: int| 0 <= pp < g2.len() implies row_ordered(#[trigger] g2[pp]) by {
            if pp != p {
                assert(row_ordered(g[pp]));
            }
        }
    } else {
        let row2 = row.update(tgt, x).update(h, Pancake::Empty);
        assert(g2 =~= g.update(p, row2));
        assert forall|d: Pancake| #[trigger] grid_count(g2, d) == grid_count(g, d) by {
            lemma_moved_grid_count(g, p, tgt, p, h, d);
        }
        assert forall|pp: int| 0 <= pp < g2.len() implies row_contiguous(#[trigger] g2[pp])
            && row_ordered(g2[pp]) by {
            if pp != p {
                assert(g2[pp] == g[pp]);
                assert(row_contiguous(g[pp]));
                assert(row_ordered(g[pp]));
            } else {
                assert(g2[pp] == row2);
            }
        }
    }
}

/// On a well-formed board a pickup never fails for want of room: when the
/// cursor rests on a pancake and a plate stands to the right, that plate
/// has a free slot of itself, and only the size check decides the pickup.
pub proof fn lemma_pickup_always_has_room(g: Seq<Seq<Pancake>>, cfg: Config, c: Coord)
    requires
        cfg.valid(),
        wf(g, cfg),
        valid_coord(c, cfg),
        g[c.plate as int][c.height as int] != Pancake::Empty,
        c.plate + 1 < cfg.plates,
    ensures
        top_index(g[c.plate as int + 1]) + 1 < cfg.pancakes,
        pickup_ok(g, cfg, c) <==> fits_on(
            top_disc(g[c.plate as int]),
            top_disc(g[c.plate as int + 1]),
        ),
{
    lemma_room_on_other_plate(g, cfg, c.plate as int, c.height as int, c.plate as int + 1);
}

/// On an invariant-respecting `Select` state only the board's edge stops a
/// carry: the destination plate always has a free slot for the pancake in
/// hand.
pub proof fn lemma_carry_always_has_room(g: Seq<Seq<Pancake>>, cfg: Config, c: Coord, d: Direction)
    requires
        game_inv(Mode::Select, g, c, cfg),
        d == Direction::Left || d == Direction::Right,
        can_move(c, cfg, d),
    ensures
        carry_ok(g, cfg, c, d),
{
    lemma_top_index(g[c.plate as int]);
    lemma_room_on_other_plate(g, cfg, c.plate as int, c.height as int, carry_dest(c, d));
}

/// One command keeps the game invariant: from any state that satisfies it,
/// the transition relation yields a state that satisfies it again.
#[verifier::rlimit(100)]
#[verifier::spinoff_prover]
pub proof fn lemma_step_preserves(m: Mode, g: Seq<Seq<Pancake>>, c: Coord, cfg: Config, cmd: Command)
    requires
        game_inv(m, g, c, cfg),
    ensures
        ({
            let s = step_spec(m, g, c, cfg, cmd);
            game_inv(s.0, s.1, s.2, cfg)
        }),
{
    let s = step_spec(m, g, c, cfg, cmd);
    match m {
        Mode::Menu => {
            if cmd == Command::Activate {
                lemma_init_wf(cfg);
                lemma_ordered_implies_except(init_grid(cfg), 0, 0);
            }
        },
        Mode::Standard => {
            match cmd {
                Command::Cancel => {
                    lemma_ordered_implies_except(g, c.plate as int, c.height as int);
                },
                Command::MoveUp => {},
                Command::MoveDown => {},
                Command::MoveLeft => {
                    if can_move(c, cfg, Direction::Left) {
                        lemma_snap_spec_valid(
                            g,
                            cfg,
                            moved(c, Direction::Left),
                            Direction::Down,
                            cfg.pancakes as nat,
                        );
                    }
                },
                Command::MoveRight => {
                    if can_move(c, cfg, Direction::Right) {
                        lemma_snap_spec_valid(
                            g,
                            cfg,
                            moved(c, Direction::Right),
                            Direction::Down,
                            cfg.pancakes as nat,
                        );
                    }
                },
                Command::Activate => {
                    if pickup_ok(g, cfg, c) {
                        let p = c.plate as int;
                        let t = top_index(g[p]);
                        lemma_top_index(g[p]);
                        assert(t >= c.height);
                        lemma_ordered_implies_except(g, p, t);
                        lemma_top_index(g[p + 1]);
                        lemma_relocate(g, cfg, p, t, p + 1);
                    }
                },
            }
        },
        Mode::Select => {
            match cmd {
                Command::Cancel => {},
                Command::MoveUp => {},
                Command::MoveDown => {},
                Command::MoveLeft => {
                    if carry_ok(g, cfg, c, Direction::Left) {
                        lemma_top_index(g[c.plate - 1]);
                        lemma_relocate(g, cfg, c.plate as int, c.height as int, c.plate - 1);
                    }
                },
                Command::MoveRight => {
                    if carry_ok(g, cfg, c, Direction::Right) {
                        lemma_top_index(g[c.plate + 1]);
                        lemma_relocate(g, cfg, c.plate as int, c.height as int, c.plate + 1);
                    }
                },
                Command::Activate => {
                    if drop_ok(g, c) {
                        lemma_drop(g, cfg, c);
                        let g2 = after_drop(g, cfg, c).0;
                        let c2 = after_drop(g, cfg, c).1;
                        lemma_snap_spec_valid(g2, cfg, c2, Direction::Down, cfg.pancakes as nat);
                    }
                },
            }
        },
        Mode::Complete => {
            if cmd == Command::Activate || cmd == Command::Cancel {
                lemma_ordered_implies_except(g, c.plate as int, c.height as int);
            }
        },
    }
}


/// Pick up the topmost pancake of the cursor's plate and set it over on the
/// plate to the right, the cursor following it: the `Standard` to `Select`
/// transition when it returns true. An illegal pickup - empty slot under
/// the cursor, no plate to the right, no room there, or a smaller pancake
/// on top there - is a silent no-op and returns false.
pub fn select(b: &mut Board, c: &mut Coord, cfg: Config) -> (r: bool)
    requires
        cfg.valid(),
        dims(old(b)@, cfg),
        valid_coord(*old(c), cfg),
    ensures
        r == pickup_ok(old(b)@, cfg, *old(c)),
        r ==> final(b)@ == after_pickup(old(b)@, cfg, *old(c)).0,
        r ==> *final(c) == after_pickup(old(b)@, cfg, *old(c)).1,
        !r ==> final(b)@ == old(b)@ && *final(c) == *old(c),
{
    let ghost g = b@;
    if !b.is_at_pancake(*c) {
        return false;
    }
    if c.plate + 1 >= cfg.plates {
        return false;
    }
    proof {
        lemma_top_index(g[c.plate as int]);
        lemma_top_index(g[c.plate as int + 1]);
    }
    let t_opt = b.top_height(c.plate);
    let t = t_opt.unwrap();
    let t2_opt = b.top_height(c.plate + 1);
    let nh = match t2_opt {
        Some(t2) => t2 + 1,
        None => 0,
    };
    if nh >= cfg.pancakes {
        return false;
    }
    let lifted = b.disc_at(c.plate, t);
    let target_top = match t2_opt {
        Some(t2) => b.disc_at(c.plate + 1, t2),
        None => Pancake::Empty,
    };
    proof {
        assert(lifted == top_disc(g[c.plate as int]));
        assert(target_top == top_disc(g[c.plate as int + 1]));
    }
    if !is_smaller_than(lifted, target_top) {
        return false;
    }
    let dest = Coord { plate: c.plate + 1, height: nh };
    b.update_pancake_location(dest, Coord { plate: c.plate, height: t });
    c.set_coord(cfg, dest);
    true
}

/// Relocate the pancake in hand onto the top of the neighbouring plate in
/// direction `d`, the cursor following it. Only the board's edge and a full
/// plate stop a carry; sizes are not checked until the drop.
pub fn carry(b: &mut Board, c: &mut Coord, cfg: Config, d: Direction) -> (r: bool)
    requires
        cfg.valid(),
        dims(old(b)@, cfg),
        valid_coord(*old(c), cfg),
        d == Direction::Left || d == Direction::Right,
    ensures
        r == carry_ok(old(b)@, cfg, *old(c), d),
        r ==> final(b)@ == after_carry(old(b)@, cfg, *old(c), d).0,
        r ==> *final(c) == after_carry(old(b)@, cfg, *old(c), d).1,
        !r ==> final(b)@ == old(b)@ && *final(c) == *old(c),
{
    let ghost g = b@;
    let p2: usize = match d {
        Direction::Left => {
            if c.plate == 0 {
                return false;
            }
            c.plate - 1
        },
        _ => {
            if c.plate + 1 >= cfg.plates {
                return false;
            }
            c.plate + 1
        },
    };
    proof {
        lemma_top_index(g[p2 as int]);
    }
    let t2_opt = b.top_height(p2);
    let nh = match t2_opt {
        Some(t2) => t2 + 1,
        None => 0,
    };
    if nh >= cfg.pancakes {
        return false;
    }
    let dest = Coord { plate: p2, height: nh };
    b.update_pancake_location(dest, *c);
    c.set_coord(cfg, dest);
    true
}

/// Drop the pancake in hand: scan the slots below it toward the base for
/// the first real pancake. A smaller one rejects the drop - a silent no-op,
/// the mode stays as it was. Otherwise the pancake settles directly above
/// it (or on the base), the cursor steps one slot toward the base, and the
/// mode returns to `Standard`.
pub fn drop_pancake(state: &mut Mode, b: &mut Board, c: &mut Coord, cfg: Config)
    requires
        cfg.valid(),
        dims(old(b)@, cfg),
        valid_coord(*old(c), cfg),
    ensures
        drop_ok(old(b)@, *old(c)) ==> *final(state) == Mode::Standard && final(b)@ == after_drop(
            old(b)@,
            cfg,
            *old(c),
        ).0 && *final(c) == after_drop(old(b)@, cfg, *old(c)).1,
        !drop_ok(old(b)@, *old(c)) ==> *final(state) == *old(state) && final(b)@ == old(b)@
            && *final(c) == *old(c),
        valid_coord(*final(c), cfg),
{
    let ghost g = b@;
    let p = c.plate;
    let h = c.height;
    let ghost row = g[p as int];
    let ghost below = row.take(h as int);
    proof {
        assert(forall|j: int| 0 <= j < h ==> below[j] == row[j]);
    }
    let held = b.disc_at(p, h);
    let mut tgt = h;
    while tgt > 0
        invariant
            cfg.valid(),
            dims(g, cfg),
            b@ == g,
            row == g[p as int],
            p < cfg.plates,
            h < cfg.pancakes,
            tgt <= h,
            forall|k: int| tgt <= k < h ==> row[k] == Pancake::Empty,
        ensures
            tgt <= h,
            forall|k: int| tgt <= k < h ==> row[k] == Pancake::Empty,
            tgt > 0 ==> row[tgt - 1] != Pancake::Empty,
        decreases tgt,
    {
        if b.disc_at(p, tgt - 1) != Pancake::Empty {
            break ;
        }
        tgt = tgt - 1;
    }
    proof {
        if tgt == 0 {
            assert(forall|j: int| 0 <= j < below.len() ==> below[j] == Pancake::Empty);
            lemma_top_index_empty(below);
        } else {
            assert(below[tgt - 1] != Pancake::Empty);
            assert(forall|j: int| tgt - 1 < j < below.len() ==> below[j] == Pancake::Empty);
            lemma_top_index_is(below, tgt - 1);
        }
        assert(tgt as int == drop_target(g, *c));
    }
    if tgt > 0 {
        let under = b.disc_at(p, tgt - 1);
        proof {
            assert(under == top_disc(below));
        }
        if !is_smaller_than(held, under) {
            // the pancake below is smaller: the drop is rejected
            return ;
        }
    } else {
        proof {
            assert(top_disc(below) == Pancake::Empty);
        }
    }
    if tgt != h {
        b.update_pancake_location(Coord { plate: p, height: tgt }, Coord { plate: p, height: h });
    }
    let _ = c.update_coord(cfg, Direction::Down);
    *state = Mode::Standard;
}

/// The single entry point of the game: consume one command, mutate the
/// board and the cursor in place, and hand back the next mode. Exactly the
/// transition relation `step_spec`, and it keeps the game invariant.
pub fn handle_command(m: Mode, b: &mut Board, c: &mut Coord, cfg: Config, cmd: Command) -> (m2:
    Mode)
    requires
        game_inv(m, old(b)@, *old(c), cfg),
    ensures
        game_inv(m2, final(b)@, *final(c), cfg),
        m2 == step_spec(m, old(b)@, *old(c), cfg, cmd).0,
        final(b)@ == step_spec(m, old(b)@, *old(c), cfg, cmd).1,
        *final(c) == step_spec(m, old(b)@, *old(c), cfg, cmd).2,
{
    proof {
        lemma_step_preserves(m, b@, *c, cfg, cmd);
    }
    match m {
        Mode::Menu => {
            match cmd {
                Command::Activate => {
                    let (nb, nc) = initialize(cfg);
                    *b = nb;
                    *c = nc;
                    Mode::Standard
                },
                _ => Mode::Menu,
            }
        },
        Mode::Standard => {
            match cmd {
                Command::Cancel => Mode::Menu,
                Command::MoveUp => {
                    let _ = c.update_coord(cfg, Direction::Up);
                    Mode::Standard
                },
                Command::MoveDown => {
                    let _ = c.update_coord(cfg, Direction::Down);
                    Mode::Standard
                },
                Command::MoveLeft => {
                    if c.update_coord(cfg, Direction::Left) {
                        snap_to_pancake(b, c, cfg, Direction::Down);
                    }
                    Mode::Standard
                },
                Command::MoveRight => {
                    if c.update_coord(cfg, Direction::Right) {
                        snap_to_pancake(b, c, cfg, Direction::Down);
                    }
                    Mode::Standard
                },
                Command::Activate => {
                    if select(b, c, cfg) {
                        Mode::Select
                    } else {
                        Mode::Standard
                    }
                },
            }
        },
        Mode::Select => {
            match cmd {
                Command::Cancel => Mode::Menu,
                Command::MoveUp => Mode::Select,
                Command::MoveDown => Mode::Select,
                Command::MoveLeft => {
                    let _ = carry(b, c, cfg, Direction::Left);
                    Mode::Select
                },
                Command::MoveRight => {
                    let _ = carry(b, c, cfg, Direction::Right);
                    Mode::Select
                },
                Command::Activate => {
                    let mut m2 = Mode::Select;
                    drop_pancake(&mut m2, b, c, cfg);
                    if matches!(m2, Mode::Standard) {
                        snap_to_pancake(b, c, cfg, Direction::Down);
                        if b.is_solved(cfg) {
                            m2 = Mode::Complete;
                        }
                    }
                    m2
                },
            }
        },
        Mode::Complete => {
            match cmd {
                Command::Activate => Mode::Menu,
                Command::Cancel => Mode::Menu,
                _ => Mode::Complete,
            }
        },
    }
}

} // verus!
