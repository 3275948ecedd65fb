use pancake_stacks::board::{initialize, Board, Config};
use pancake_stacks::cursor::{Coord, Direction};
use pancake_stacks::engine::{drop_pancake, handle_command, Command, Mode};
use pancake_stacks::pancake::{is_smaller_than, Pancake};
use pancake_stacks::view::{pancake_text, plate, print_screen, tablecloth};

fn cfg3() -> Config {
    Config { plates: 3, pancakes: 3 }
}

fn start() -> (Board, Coord) {
    initialize(cfg3())
}

#[test]
fn smaller_than_is_the_fit_check() {
    assert!(is_smaller_than(Pancake::Sm, Pancake::Sm));
    assert!(is_smaller_than(Pancake::Sm, Pancake::M));
    assert!(is_smaller_than(Pancake::Sm, Pancake::Lg));
    assert!(is_smaller_than(Pancake::M, Pancake::M));
    assert!(is_smaller_than(Pancake::M, Pancake::Lg));
    assert!(is_smaller_than(Pancake::Lg, Pancake::Lg));
    assert!(!is_smaller_than(Pancake::M, Pancake::Sm));
    assert!(!is_smaller_than(Pancake::Lg, Pancake::Sm));
    assert!(!is_smaller_than(Pancake::Lg, Pancake::M));
    // the empty marker blocks nothing, on either side
    assert!(is_smaller_than(Pancake::Empty, Pancake::Sm));
    assert!(is_smaller_than(Pancake::Lg, Pancake::Empty));
    assert!(is_smaller_than(Pancake::Empty, Pancake::Empty));
}

#[test]
fn initialize_builds_the_start_position() {
    let (b, c) = start();
    assert_eq!(c, Coord { plate: 0, height: 0 });
    assert_eq!(b.disc_at(0, 0), Pancake::Lg);
    assert_eq!(b.disc_at(0, 1), Pancake::M);
    assert_eq!(b.disc_at(0, 2), Pancake::Sm);
    for p in 1..3 {
        for h in 0..3 {
            assert_eq!(b.disc_at(p, h), Pancake::Empty);
        }
    }
    assert_eq!(b.top_height(0), Some(2));
    assert_eq!(b.top_height(1), None);
    assert!(b.is_at_pancake(c));
}

#[test]
fn initial_position_is_not_solved() {
    let (b, _) = start();
    assert!(!b.is_solved(cfg3()));
}

#[test]
fn solved_position_is_detected() {
    let (mut b, _) = start();
    // move the whole stack to the last plate by raw slot writes
    b.clear(0, 0);
    b.clear(0, 1);
    b.clear(0, 2);
    b.place(2, 0, Pancake::Lg);
    b.place(2, 1, Pancake::M);
    b.place(2, 2, Pancake::Sm);
    assert!(b.is_solved(cfg3()));
    // any misplacement breaks it
    b.place(2, 2, Pancake::Empty);
    b.place(1, 0, Pancake::Sm);
    assert!(!b.is_solved(cfg3()));
}

#[test]
fn one_plate_board_starts_solved() {
    let cfg = Config { plates: 1, pancakes: 3 };
    let (b, _) = initialize(cfg);
    assert!(b.is_solved(cfg));
}

#[test]
fn pickup_carry_drop_scenario() {
    // three pancakes on plate 0, cursor at its base
    let cfg = cfg3();
    let (mut b, mut c) = start();
    // Activate picks up the small pancake and sets it on plate 1 at height 0
    let m = handle_command(Mode::Standard, &mut b, &mut c, cfg, Command::Activate);
    assert_eq!(m, Mode::Select);
    assert_eq!(c, Coord { plate: 1, height: 0 });
    assert_eq!(b.disc_at(1, 0), Pancake::Sm);
    assert_eq!(b.disc_at(0, 2), Pancake::Empty);
    // carrying right relocates it to plate 2 at height 0
    let m = handle_command(m, &mut b, &mut c, cfg, Command::MoveRight);
    assert_eq!(m, Mode::Select);
    assert_eq!(c, Coord { plate: 2, height: 0 });
    assert_eq!(b.disc_at(2, 0), Pancake::Sm);
    assert_eq!(b.disc_at(1, 0), Pancake::Empty);
    // the drop lands it at the base of the empty plate; the hand is at the
    // base already, so the cursor stays put
    let m = handle_command(m, &mut b, &mut c, cfg, Command::Activate);
    assert_eq!(m, Mode::Standard);
    assert_eq!(c, Coord { plate: 2, height: 0 });
    assert_eq!(b.disc_at(2, 0), Pancake::Sm);
    assert_eq!(b.disc_at(0, 0), Pancake::Lg);
    assert_eq!(b.disc_at(0, 1), Pancake::M);
    assert!(!b.is_solved(cfg));
}

#[test]
fn pickup_onto_smaller_pancake_is_rejected() {
    // plate 0 holds Lg, M; plate 1 holds Sm: lifting M would set it on Sm
    let cfg = cfg3();
    let (mut b, mut c) = start();
    b.clear(0, 2);
    b.place(1, 0, Pancake::Sm);
    let m = handle_command(Mode::Standard, &mut b, &mut c, cfg, Command::Activate);
    assert_eq!(m, Mode::Standard);
    assert_eq!(c, Coord { plate: 0, height: 0 });
    assert_eq!(b.disc_at(0, 0), Pancake::Lg);
    assert_eq!(b.disc_at(0, 1), Pancake::M);
    assert_eq!(b.disc_at(1, 0), Pancake::Sm);
    assert_eq!(b.disc_at(1, 1), Pancake::Empty);
}

#[test]
fn pickup_on_empty_slot_is_a_no_op() {
    let cfg = cfg3();
    let (mut b, mut c) = start();
    // cursor onto the empty plate 1
    c.set_coord(cfg, Coord { plate: 1, height: 0 });
    let m = handle_command(Mode::Standard, &mut b, &mut c, cfg, Command::Activate);
    assert_eq!(m, Mode::Standard);
    assert_eq!(c, Coord { plate: 1, height: 0 });
    assert_eq!(b.disc_at(0, 2), Pancake::Sm);
}

#[test]
fn pickup_on_last_plate_is_a_no_op() {
    let cfg = cfg3();
    let (mut b, mut c) = start();
    b.clear(0, 2);
    b.place(2, 0, Pancake::Sm);
    c.set_coord(cfg, Coord { plate: 2, height: 0 });
    let m = handle_command(Mode::Standard, &mut b, &mut c, cfg, Command::Activate);
    assert_eq!(m, Mode::Standard);
    assert_eq!(b.disc_at(2, 0), Pancake::Sm);
}

#[test]
fn drop_onto_smaller_pancake_is_rejected() {
    // mid-carry: Lg in hand hovers over Sm on plate 2, M rests on plate 0
    let cfg = cfg3();
    let (mut b, mut c) = start();
    b.clear(0, 1);
    b.clear(0, 2);
    b.clear(0, 0);
    b.place(0, 0, Pancake::M);
    b.place(2, 0, Pancake::Sm);
    b.place(2, 1, Pancake::Lg);
    c.set_coord(cfg, Coord { plate: 2, height: 1 });
    let m = handle_command(Mode::Select, &mut b, &mut c, cfg, Command::Activate);
    assert_eq!(m, Mode::Select);
    assert_eq!(c, Coord { plate: 2, height: 1 });
    assert_eq!(b.disc_at(2, 0), Pancake::Sm);
    assert_eq!(b.disc_at(2, 1), Pancake::Lg);
}

#[test]
fn carry_rides_over_a_smaller_pancake() {
    // the carry is not size-checked: Lg in hand hovers over Sm
    let cfg = cfg3();
    let (mut b, mut c) = start();
    b.clear(0, 0);
    b.clear(0, 1);
    b.clear(0, 2);
    b.place(0, 0, Pancake::M);
    b.place(1, 0, Pancake::Lg);
    b.place(2, 0, Pancake::Sm);
    c.set_coord(cfg, Coord { plate: 1, height: 0 });
    let m = handle_command(Mode::Select, &mut b, &mut c, cfg, Command::MoveRight);
    assert_eq!(m, Mode::Select);
    assert_eq!(c, Coord { plate: 2, height: 1 });
    assert_eq!(b.disc_at(2, 1), Pancake::Lg);
    assert_eq!(b.disc_at(1, 0), Pancake::Empty);
}

#[test]
fn carry_stops_at_the_board_edge() {
    let cfg = cfg3();
    let (mut b, mut c) = start();
    b.clear(0, 2);
    b.place(2, 0, Pancake::Sm);
    c.set_coord(cfg, Coord { plate: 2, height: 0 });
    let m = handle_command(Mode::Select, &mut b, &mut c, cfg, Command::MoveRight);
    assert_eq!(m, Mode::Select);
    assert_eq!(c, Coord { plate: 2, height: 0 });
    assert_eq!(b.disc_at(2, 0), Pancake::Sm);
}

#[test]
fn cancel_mid_carry_is_not_transactional() {
    let cfg = cfg3();
    let (mut b, mut c) = start();
    let m = handle_command(Mode::Standard, &mut b, &mut c, cfg, Command::Activate);
    assert_eq!(m, Mode::Select);
    // the pancake in hand stays where it was relocated to
    let m = handle_command(m, &mut b, &mut c, cfg, Command::Cancel);
    assert_eq!(m, Mode::Menu);
    assert_eq!(b.disc_at(1, 0), Pancake::Sm);
    assert_eq!(b.disc_at(0, 2), Pancake::Empty);
}

#[test]
fn menu_activate_restarts_the_puzzle() {
    let cfg = cfg3();
    let (mut b, mut c) = start();
    let m = handle_command(Mode::Standard, &mut b, &mut c, cfg, Command::Activate);
    let m = handle_command(m, &mut b, &mut c, cfg, Command::Cancel);
    let m = handle_command(m, &mut b, &mut c, cfg, Command::Activate);
    assert_eq!(m, Mode::Standard);
    assert_eq!(c, Coord { plate: 0, height: 0 });
    assert_eq!(b.disc_at(0, 0), Pancake::Lg);
    assert_eq!(b.disc_at(0, 1), Pancake::M);
    assert_eq!(b.disc_at(0, 2), Pancake::Sm);
    assert_eq!(b.disc_at(1, 0), Pancake::Empty);
}

#[test]
fn cursor_never_leaves_the_board() {
    let cfg = cfg3();
    let (mut b, mut c) = start();
    // down and left from the origin are rejected
    handle_command(Mode::Standard, &mut b, &mut c, cfg, Command::MoveDown);
    assert_eq!(c, Coord { plate: 0, height: 0 });
    handle_command(Mode::Standard, &mut b, &mut c, cfg, Command::MoveLeft);
    assert_eq!(c, Coord { plate: 0, height: 0 });
    // up stops at the top slot
    for _ in 0..5 {
        handle_command(Mode::Standard, &mut b, &mut c, cfg, Command::MoveUp);
    }
    assert_eq!(c, Coord { plate: 0, height: 2 });
    // right stops at the last plate (sliding down each empty plate)
    for _ in 0..5 {
        handle_command(Mode::Standard, &mut b, &mut c, cfg, Command::MoveRight);
    }
    assert_eq!(c, Coord { plate: 2, height: 0 });
}

#[test]
fn sideways_motion_snaps_to_the_topmost_pancake() {
    let cfg = cfg3();
    let (mut b, mut c) = start();
    // climb to the top of the full plate, then step onto the empty plate:
    // the cursor slides down to its base
    handle_command(Mode::Standard, &mut b, &mut c, cfg, Command::MoveUp);
    handle_command(Mode::Standard, &mut b, &mut c, cfg, Command::MoveUp);
    assert_eq!(c, Coord { plate: 0, height: 2 });
    handle_command(Mode::Standard, &mut b, &mut c, cfg, Command::MoveRight);
    assert_eq!(c, Coord { plate: 1, height: 0 });
    // stepping back onto the stacked plate from above rests on its top pancake
    handle_command(Mode::Standard, &mut b, &mut c, cfg, Command::MoveUp);
    handle_command(Mode::Standard, &mut b, &mut c, cfg, Command::MoveUp);
    assert_eq!(c, Coord { plate: 1, height: 2 });
    handle_command(Mode::Standard, &mut b, &mut c, cfg, Command::MoveLeft);
    assert_eq!(c, Coord { plate: 0, height: 2 });
    assert!(b.is_at_pancake(c));
}

#[test]
fn dropping_the_last_pancake_wins() {
    // plate 2 already holds Lg and M; Sm is in hand above them
    let cfg = cfg3();
    let (mut b, mut c) = start();
    b.clear(0, 0);
    b.clear(0, 1);
    b.clear(0, 2);
    b.place(2, 0, Pancake::Lg);
    b.place(2, 1, Pancake::M);
    b.place(2, 2, Pancake::Sm);
    c.set_coord(cfg, Coord { plate: 2, height: 2 });
    let m = handle_command(Mode::Select, &mut b, &mut c, cfg, Command::Activate);
    assert_eq!(m, Mode::Complete);
    assert!(b.is_solved(cfg));
    // an Activate in Complete returns to the menu
    let m = handle_command(m, &mut b, &mut c, cfg, Command::Activate);
    assert_eq!(m, Mode::Menu);
}

#[test]
fn tiny_board_can_be_played_to_the_end() {
    // one pancake, two plates: pick it up and drop it
    let cfg = Config { plates: 2, pancakes: 1 };
    let (mut b, mut c) = initialize(cfg);
    assert!(!b.is_solved(cfg));
    let m = handle_command(Mode::Standard, &mut b, &mut c, cfg, Command::Activate);
    assert_eq!(m, Mode::Select);
    assert_eq!(c, Coord { plate: 1, height: 0 });
    let m = handle_command(m, &mut b, &mut c, cfg, Command::Activate);
    assert_eq!(m, Mode::Complete);
    assert!(b.is_solved(cfg));
}

#[test]
fn drop_settles_through_empty_slots() {
    // Sm in hand at the top slot with nothing under it: it falls to the base
    let cfg = cfg3();
    let (mut b, mut c) = start();
    b.clear(0, 2);
    b.place(1, 2, Pancake::Sm);
    c.set_coord(cfg, Coord { plate: 1, height: 2 });
    let mut m = Mode::Select;
    drop_pancake(&mut m, &mut b, &mut c, cfg);
    assert_eq!(m, Mode::Standard);
    assert_eq!(b.disc_at(1, 0), Pancake::Sm);
    assert_eq!(b.disc_at(1, 2), Pancake::Empty);
    // the hand stepped one slot toward the base
    assert_eq!(c, Coord { plate: 1, height: 1 });
}

#[test]
fn update_coord_reports_and_set_coord_is_silent() {
    let cfg = cfg3();
    let mut c = Coord { plate: 0, height: 0 };
    assert!(!c.update_coord(cfg, Direction::Down));
    assert!(c.update_coord(cfg, Direction::Up));
    assert_eq!(c, Coord { plate: 0, height: 1 });
    // an off-board target leaves the cursor at its previous value
    c.set_coord(cfg, Coord { plate: 9, height: 0 });
    assert_eq!(c, Coord { plate: 0, height: 1 });
    c.set_coord(cfg, Coord { plate: 2, height: 2 });
    assert_eq!(c, Coord { plate: 2, height: 2 });
}

#[test]
fn plate_and_tablecloth_render() {
    assert_eq!(plate(), "\\____________/");
    let cloth = tablecloth(cfg3());
    assert_eq!(cloth, "\u{2584}\u{2580} ".repeat(20));
}

#[test]
fn pancake_bands_render() {
    assert_eq!(pancake_text(Pancake::Lg), "   (========)     ");
    assert_eq!(pancake_text(Pancake::M), "    (======)      ");
    assert_eq!(pancake_text(Pancake::Sm), "     (====)       ");
    assert_eq!(pancake_text(Pancake::Empty), "                  ");
}

#[test]
fn print_screen_draws_the_start_position() {
    let cfg = cfg3();
    let (b, c) = start();
    let blank = "                  ";
    let mut expected = String::new();
    expected.push_str("  ");
    expected.push_str("     (====)       ");
    expected.push_str("  ");
    expected.push_str(blank);
    expected.push_str("  ");
    expected.push_str(blank);
    expected.push('\n');
    expected.push_str("  ");
    expected.push_str("    (======)      ");
    expected.push_str("  ");
    expected.push_str(blank);
    expected.push_str("  ");
    expected.push_str(blank);
    expected.push('\n');
    expected.push_str("->");
    expected.push_str("   (========)     ");
    expected.push_str("  ");
    expected.push_str(blank);
    expected.push_str("  ");
    expected.push_str(blank);
    expected.push('\n');
    expected.push_str(&"   \\____________/   ".repeat(3));
    expected.push_str("\n\n|");
    expected.push_str(&"\u{2584}\u{2580} ".repeat(20));
    expected.push_str("|\n");
    assert_eq!(print_screen(&b, c, cfg), expected);
}

#[test]
fn full_game_is_winnable_on_five_plates() {
    // A pickup always sets the pancake over on the next plate to the right,
    // so rebuilding the stack takes room to stage pancakes: five plates for
    // three pancakes. The goal is the last plate.
    let cfg = Config { plates: 5, pancakes: 3 };
    let (mut b, mut c) = initialize(cfg);
    let mut m = Mode::Standard;
    let script = [
        // small pancake to plate 3
        Command::Activate,
        Command::MoveRight,
        Command::MoveRight,
        Command::Activate,
        // middle pancake to plate 2
        Command::MoveLeft,
        Command::MoveLeft,
        Command::MoveLeft,
        Command::Activate,
        Command::MoveRight,
        Command::Activate,
        // large pancake rides over both to plate 4
        Command::MoveLeft,
        Command::MoveLeft,
        Command::Activate,
        Command::MoveRight,
        Command::MoveRight,
        Command::MoveRight,
        Command::Activate,
        // small pancake out of the way, onto plate 1
        Command::MoveLeft,
        Command::Activate,
        Command::MoveLeft,
        Command::MoveLeft,
        Command::MoveLeft,
        Command::Activate,
        // middle pancake onto the large one
        Command::MoveRight,
        Command::Activate,
        Command::MoveRight,
        Command::Activate,
        // small pancake on top: solved
        Command::MoveLeft,
        Command::MoveLeft,
        Command::MoveLeft,
        Command::Activate,
        Command::MoveRight,
        Command::MoveRight,
        Command::Activate,
    ];
    for cmd in script {
        m = handle_command(m, &mut b, &mut c, cfg, cmd);
    }
    assert_eq!(m, Mode::Complete);
    assert!(b.is_solved(cfg));
    assert_eq!(b.disc_at(4, 0), Pancake::Lg);
    assert_eq!(b.disc_at(4, 1), Pancake::M);
    assert_eq!(b.disc_at(4, 2), Pancake::Sm);
}

#[test]
fn conservation_and_stacking_hold_after_play() {
    // a mixed bag of commands, legal and illegal ones alike
    let cfg = cfg3();
    let (mut b, mut c) = start();
    let mut m = Mode::Standard;
    let script = [
        Command::MoveUp,
        Command::Activate,
        Command::MoveRight,
        Command::MoveRight,
        Command::Activate,
        Command::MoveLeft,
        Command::MoveLeft,
        Command::Activate,
        Command::MoveRight,
        Command::Activate,
        Command::MoveDown,
        Command::Activate,
        Command::MoveUp,
        Command::MoveLeft,
        Command::Activate,
    ];
    for cmd in script {
        m = handle_command(m, &mut b, &mut c, cfg, cmd);
    }
    // every pancake is still on the board exactly once
    let mut small = 0;
    let mut middle = 0;
    let mut large = 0;
    for p in 0..3 {
        for h in 0..3 {
            match b.disc_at(p, h) {
                Pancake::Sm => small += 1,
                Pancake::M => middle += 1,
                Pancake::Lg => large += 1,
                Pancake::Empty => {}
            }
        }
    }
    assert_eq!((small, middle, large), (1, 1, 1));
    // nothing floats, and sizes never grow from base to top while no
    // pancake is in hand
    let rank = |d: Pancake| match d {
        Pancake::Empty => 0,
        Pancake::Sm => 1,
        Pancake::M => 2,
        Pancake::Lg => 3,
    };
    for p in 0..3 {
        for h in 1..3 {
            if b.disc_at(p, h) != Pancake::Empty {
                assert_ne!(b.disc_at(p, h - 1), Pancake::Empty);
                if m == Mode::Standard || m == Mode::Complete {
                    assert!(rank(b.disc_at(p, h)) <= rank(b.disc_at(p, h - 1)));
                }
            }
        }
    }
}
