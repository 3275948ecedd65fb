use vstd::prelude::*;

verus! {

/// One slot of a plate: a pancake of one of three sizes, or the marker for
/// an empty slot. The marker is a variant of the same enumeration so that
/// every match over a slot is exhaustive.
#[derive(Clone, Copy, Debug, PartialEq, Eq, Structural)]
pub enum Pancake {
    Empty,
    Sm,
    M,
    Lg,
}

/// The numeric size of a pancake; the empty marker has size 0.
pub open spec fn size(p: Pancake) -> int {
    match p {
        Pancake::Empty => 0,
        Pancake::Sm => 1,
        Pancake::M => 2,
        Pancake::Lg => 3,
    }
}

/// The pancake of a given size, for sizes 1 to 3; anything else is the
/// empty marker.
pub open spec fn disc_of(s: int) -> Pancake {
    if s == 1 {
        Pancake::Sm
    } else if s == 2 {
        Pancake::M
    } else if s == 3 {
        Pancake::Lg
    } else {
        Pancake::Empty
    }
}

/// `p1` may come to rest directly on `p2`. The empty marker blocks
/// nothing: any pancake may land on an empty slot, and an empty hand
/// disturbs nothing. Among real pancakes, the one on top must be the
/// same size or smaller.
pub open spec fn fits_on(p1: Pancake, p2: Pancake) -> bool {
    p1 == Pancake::Empty || p2 == Pancake::Empty || size(p1) <= size(p2)
}

/// Size comparison used by every legality check: may `p1` rest on `p2`?
pub fn is_smaller_than(p1: Pancake, p2: Pancake) -> (r: bool)
    ensures
        r == fits_on(p1, p2),
{
    match p1 {
        Pancake::Sm => true,
        Pancake::M => p2 != Pancake::Sm,
        Pancake::Lg => p2 == Pancake::Lg || p2 == Pancake::Empty,
        Pancake::Empty => true,
    }
}

} // verus!
