use vstd::prelude::*;

use crate::board::{
    contiguous, dims, lemma_contiguous_below, lemma_top_index, row_contiguous, top_index, Board,
    Config,
};
use crate::pancake::Pancake;

verus! {

/// The player's position on the board: a plate and a height on it. In
/// `Select` mode it is also where the pancake in hand is hovering.
#[derive(Clone, Copy, Debug, PartialEq, Eq, Structural)]
pub struct Coord {
    pub plate: usize,
    pub height: usize,
}

/// One of the four unit directions a cursor can move in.
#[derive(Clone, Copy, Debug, PartialEq, Eq, Structural)]
pub enum Direction {
    Up,
    Down,
    Left,
    Right,
}

/// The coordinate lies on the board.
pub open spec fn valid_coord(c: Coord, cfg: Config) -> bool {
    &&& c.plate < cfg.plates
    &&& c.height < cfg.pancakes
}

/// One step in the given direction stays on the board.
pub open spec fn can_move(c: Coord, cfg: Config, d: Direction) -> bool {
    match d {
        Direction::Up => c.height + 1 < cfg.pancakes,
        Direction::Down => c.height >= 1,
        Direction::Left => c.plate >= 1,
        Direction::Right => c.plate + 1 < cfg.plates,
    }
}

/// The coordinate one step away in the given direction.
pub open spec fn moved(c: Coord, d: Direction) -> Coord {
    match d {
        Direction::Up => Coord { plate: c.plate, height: (c.height + 1) as usize },
        Direction::Down => Coord { plate: c.plate, height: (c.height - 1) as usize },
        Direction::Left => Coord { plate: (c.plate - 1) as usize, height: c.height },
        Direction::Right => Coord { plate: (c.plate + 1) as usize, height: c.height },
    }
}

impl Coord {
    /// Try to step one slot in the given direction. A step that would leave
    /// the board is rejected: the cursor is unchanged and `false` comes back.
    /// This is the sole bounds gate for all cursor motion.
    pub fn update_coord(&mut self, cfg: Config, d: Direction) -> (r: bool)
        requires
            valid_coord(*old(self), cfg),
        ensures
            r == can_move(*old(self), cfg, d),
            *final(self) == if can_move(*old(self), cfg, d) {
                moved(*old(self), d)
            } else {
                *old(self)
            },
            valid_coord(*final(self), cfg),
    {
        match d {
            Direction::Up => {
                if self.height + 1 < cfg.pancakes {
                    self.height = self.height + 1;
                    true
                } else {
                    false
                }
            },
            Direction::Down => {
                if self.height >= 1 {
                    self.height = self.height - 1;
                    true
                } else {
                    false
                }
            },
            Direction::Left => {
                if self.plate >= 1 {
                    self.plate = self.plate - 1;
                    true
                } else {
                    false
                }
            },
            Direction::Right => {
                if self.plate + 1 < cfg.plates {
                    self.plate = self.plate + 1;
                    true
                } else {
                    false
                }
            },
        }
    }

    /// Absolute jump. A target off the board is rejected as a whole and the
    /// cursor keeps its previous value: the same reject-with-no-op policy
    /// as `update_coord`, only without a report, since the engine only jumps
    /// to positions it has already bounds-checked.
    pub fn set_coord(&mut self, cfg: Config, target: Coord)
        ensures
            *final(self) == if valid_coord(target, cfg) {
                target
            } else {
                *old(self)
            },
    {
        if target.plate < cfg.plates && target.height < cfg.pancakes {
            *self = target;
        }
    }
}

/// Where a cursor that slides in direction `d` comes to rest: it stops on
/// the first slot that holds a pancake, at the board's edge, or when the
/// fuel runs out.
pub open spec fn snap_spec(
    g: Seq<Seq<Pancake>>,
    cfg: Config,
    c: Coord,
    d: Direction,
    fuel: nat,
) -> Coord
    decreases fuel,
{
    if g[c.plate as int][c.height as int] != Pancake::Empty {
        c
    } else if fuel == 0 {
        c
    } else if can_move(c, cfg, d) {
        snap_spec(g, cfg, moved(c, d), d, (fuel - 1) as nat)
    } else {
        c
    }
}

/// Sliding down, a fuel of the cursor's own height is already enough: any
/// two sufficient fuels give the same resting slot. The plate height `H`
/// therefore bounds the slide.
pub proof fn lemma_snap_down_fuel(
    g: Seq<Seq<Pancake>>,
    cfg: Config,
    c: Coord,
    f1: nat,
    f2: nat,
)
    requires
        f1 >= c.height,
        f2 >= c.height,
    ensures
        snap_spec(g, cfg, c, Direction::Down, f1) == snap_spec(g, cfg, c, Direction::Down, f2),
    decreases c.height,
{
    if g[c.plate as int][c.height as int] == Pancake::Empty && c.height >= 1 {
        lemma_snap_down_fuel(g, cfg, moved(c, Direction::Down), (f1 - 1) as nat, (f2 - 1) as nat);
    }
}

/// A slide that starts on the board ends on the board.
pub proof fn lemma_snap_spec_valid(
    g: Seq<Seq<Pancake>>,
    cfg: Config,
    c: Coord,
    d: Direction,
    fuel: nat,
)
    requires
        valid_coord(c, cfg),
    ensures
        valid_coord(snap_spec(g, cfg, c, d, fuel), cfg),
    decreases fuel,
{
    if g[c.plate as int][c.height as int] == Pancake::Empty && fuel > 0 && can_move(c, cfg, d) {
        lemma_snap_spec_valid(g, cfg, moved(c, d), d, (fuel - 1) as nat);
    }
}

/// What the downward slide is for: on a board where nothing floats, the
/// cursor comes to rest on the topmost pancake of its plate - or where it
/// already was, if that was on a pancake - or at the base of a bare plate.
pub proof fn lemma_snap_down_rests(g: Seq<Seq<Pancake>>, cfg: Config, c: Coord, fuel: nat)
    requires
        dims(g, cfg),
        contiguous(g),
        valid_coord(c, cfg),
        fuel >= c.height,
    ensures
        ({
            let r = snap_spec(g, cfg, c, Direction::Down, fuel);
            let t = top_index(g[c.plate as int]);
            &&& r.plate == c.plate
            &&& r.height <= c.height
            &&& (c.height <= t ==> r == c)
            &&& (c.height > t && t >= 0 ==> r.height == t)
            &&& (t < 0 ==> r.height == 0)
        }),
    decreases c.height,
{
    let p = c.plate as int;
    let t = top_index(g[p]);
    lemma_top_index(g[p]);
    assert(row_contiguous(g[p]));
    if g[p][c.height as int] != Pancake::Empty {
        assert(c.height <= t);
    } else {
        if c.height <= t && t >= 0 {
            lemma_contiguous_below(g[p], c.height as int, t);
        }
        assert(c.height > t);
        if c.height >= 1 {
            lemma_snap_down_rests(g, cfg, moved(c, Direction::Down), (fuel - 1) as nat);
        }
    }
}

/// Slide the cursor in direction `d` until it rests on a pancake or cannot
/// move further, with at most `H` steps taken (`H` = slots per plate), so
/// the slide ends even in a direction that makes no progress. Used by the
/// engine with `Down`, after cross-plate motion, so the cursor rests on the
/// plate's topmost pancake instead of floating over empty slots.
pub fn snap_to_pancake(b: &Board, c: &mut Coord, cfg: Config, d: Direction)
    requires
        cfg.valid(),
        dims(b@, cfg),
        valid_coord(*old(c), cfg),
    ensures
        *final(c) == snap_spec(b@, cfg, *old(c), d, cfg.pancakes as nat),
        valid_coord(*final(c), cfg),
{
    let ghost c0 = *c;
    let mut fuel: usize = cfg.pancakes;
    loop
        invariant
            cfg.valid(),
            dims(b@, cfg),
            valid_coord(*c, cfg),
            fuel <= cfg.pancakes,
            snap_spec(b@, cfg, c0, d, cfg.pancakes as nat) == snap_spec(b@, cfg, *c, d, fuel as nat),
        ensures
            *c == snap_spec(b@, cfg, c0, d, cfg.pancakes as nat),
            valid_coord(*c, cfg),
        decreases fuel,
    {
        if b.is_at_pancake(*c) {
            break ;
        }
        if fuel == 0 {
            break ;
        }
        if !c.update_coord(cfg, d) {
            break ;
        }
        fuel = fuel - 1;
    }
}

} // verus!
