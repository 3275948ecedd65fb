use vstd::prelude::*;
use vstd::string::*;

use crate::board::{dims, Board, Config};
use crate::cursor::{valid_coord, Coord};
use crate::pancake::Pancake;

verus! {

/// The 18-character band a pancake paints in its slot, or blank for an
/// empty slot.
pub open spec fn pancake_chars(p: Pancake) -> Seq<char> {
    match p {
        Pancake::Lg => "   (========)     "@,
        Pancake::M => "    (======)      "@,
        Pancake::Sm => "     (====)       "@,
        Pancake::Empty => "                  "@,
    }
}

/// The 2-character marker in front of a slot: an arrow on the slot the
/// cursor rests on, blank space everywhere else.
pub open spec fn marker_chars(c: Coord, p: int, h: int) -> Seq<char> {
    if c.plate == p && c.height == h {
        "->"@
    } else {
        "  "@
    }
}

/// One slot as drawn: its marker, then its pancake band.
pub open spec fn cell_chars(g: Seq<Seq<Pancake>>, c: Coord, p: int, h: int) -> Seq<char> {
    marker_chars(c, p, h) + pancake_chars(g[p][h])
}

/// The slots of height `h` on the first `p` plates, left to right.
pub open spec fn row_cells_chars(g: Seq<Seq<Pancake>>, c: Coord, h: int, p: nat) -> Seq<char>
    decreases p,
{
    if p == 0 {
        Seq::<char>::empty()
    } else {
        row_cells_chars(g, c, h, (p - 1) as nat) + cell_chars(g, c, p - 1, h)
    }
}

/// The first `k` board lines, drawn from the top of the plates downward,
/// each ended by a newline.
pub open spec fn rows_chars(g: Seq<Seq<Pancake>>, c: Coord, cfg: Config, k: nat) -> Seq<char>
    decreases k,
{
    if k == 0 {
        Seq::<char>::empty()
    } else {
        rows_chars(g, c, cfg, (k - 1) as nat) + row_cells_chars(
            g,
            c,
            cfg.pancakes - k,
            cfg.plates as nat,
        ) + "\n"@
    }
}

/// `s` written out `k` times.
pub open spec fn repeat_chars(s: Seq<char>, k: nat) -> Seq<char>
    decreases k,
{
    if k == 0 {
        Seq::<char>::empty()
    } else {
        repeat_chars(s, (k - 1) as nat) + s
    }
}

/// The still scenery under the pancakes: one 20-character section per
/// plate with the plate centred in it, a blank line, and the tablecloth
/// between two table edges.
pub open spec fn background_chars(cfg: Config) -> Seq<char> {
    repeat_chars("   \\____________/   "@, cfg.plates as nat) + "\n"@ + "\n"@ + "|"@ + repeat_chars(
        "\u{2584}\u{2580} "@,
        (20 * cfg.plates / 3) as nat,
    ) + "|"@ + "\n"@
}

/// The whole screen: every board line from the top down, then the scenery.
pub open spec fn screen_chars(g: Seq<Seq<Pancake>>, c: Coord, cfg: Config) -> Seq<char> {
    rows_chars(g, c, cfg, cfg.pancakes as nat) + background_chars(cfg)
}

/// The band of text a pancake paints, as a string.
pub fn pancake_text(p: Pancake) -> (r: String)
    ensures
        r@ == pancake_chars(p),
{
    match p {
        Pancake::Lg => String::from_str("   (========)     "),
        Pancake::M => String::from_str("    (======)      "),
        Pancake::Sm => String::from_str("     (====)       "),
        Pancake::Empty => String::from_str("                  "),
    }
}

/// One plate, as drawn.
pub fn plate() -> (r: String)
    ensures
        r@ == "\\____________/"@,
{
    String::from_str("\\____________/")
}

/// The tablecloth under the plates: a zigzag tile repeated to cover the
/// table, one third of a tile per character column of the plate sections.
pub fn tablecloth(cfg: Config) -> (r: String)
    requires
        cfg.valid(),
    ensures
        r@ == repeat_chars("\u{2584}\u{2580} "@, (20 * cfg.plates / 3) as nat),
{
    let count: usize = 20 * cfg.plates / 3;
    let mut s = String::new();
    let mut i: usize = 0;
    while i < count
        invariant
            i <= count,
            s@ == repeat_chars("\u{2584}\u{2580} "@, i as nat),
        decreases count - i,
    {
        s.append("\u{2584}\u{2580} ");
        i = i + 1;
    }
    s
}

/// Draw the whole screen for the presentation layer: the board with the
/// cursor marker, then the plates and the table. Pure text; putting it on
/// a terminal (and clearing the old frame) is the caller's business.
pub fn print_screen(b: &Board, c: Coord, cfg: Config) -> (r: String)
    requires
        cfg.valid(),
        dims(b@, cfg),
        valid_coord(c, cfg),
    ensures
        r@ == screen_chars(b@, c, cfg),
{
    let ghost g = b@;
    let mut s = String::new();
    let mut k: usize = 0;
    while k < cfg.pancakes
        invariant
            cfg.valid(),
            dims(g, cfg),
            valid_coord(c, cfg),
            g == b@,
            k <= cfg.pancakes,
            s@ == rows_chars(g, c, cfg, k as nat),
        decreases cfg.pancakes - k,
    {
        let h = cfg.pancakes - 1 - k;
        let mut p: usize = 0;
        while p < cfg.plates
            invariant
                cfg.valid(),
                dims(g, cfg),
                valid_coord(c, cfg),
                g == b@,
                k < cfg.pancakes,
                h == cfg.pancakes - 1 - k,
                p <= cfg.plates,
                s@ == rows_chars(g, c, cfg, k as nat) + row_cells_chars(g, c, h as int, p as nat),
            decreases cfg.plates - p,
        {
            if c.plate == p && c.height == h {
                s.append("->");
            } else {
                s.append("  ");
            }
            let band = pancake_text(b.disc_at(p, h));
            s.append(band.as_str());
            p = p + 1;
        }
        s.append("\n");
        k = k + 1;
    }
    let mut p: usize = 0;
    while p < cfg.plates
        invariant
            cfg.valid(),
            p <= cfg.plates,
            s@ == rows_chars(g, c, cfg, cfg.pancakes as nat) + repeat_chars(
                "   \\____________/   "@,
                p as nat,
            ),
        decreases cfg.plates - p,
    {
        s.append("   \\____________/   ");
        p = p + 1;
    }
    s.append("\n");
    s.append("\n");
    s.append("|");
    let cloth = tablecloth(cfg);
    s.append(cloth.as_str());
    s.append("|");
    s.append("\n");
    s
}

} // verus!
