//! Board-level rules: coordinates, legality, hits, bear-offs, conservation.

use backgammon::board::{Board, Move, Point};
use backgammon::color::Color;
use backgammon::error::BackgammonError;

fn empty_board() -> Board {
    Board { points: [Point { color: Color::Neither, n_pieces: 0 }; 26], borne: [0, 0] }
}

fn place(board: &mut Board, idx: usize, color: Color, n: u8) {
    board.points[idx] = Point { color, n_pieces: n };
}

fn checkers(board: &Board, color: Color) -> u32 {
    let mut total: u32 = board.borne[if color == Color::White { 0 } else { 1 }] as u32;
    for p in board.points.iter() {
        if p.color == color {
            total += p.n_pieces as u32;
        }
    }
    total
}

#[test]
fn distance_formulas() {
    let b = empty_board();
    assert_eq!(b.distance(Color::White, 24), Ok(1));
    assert_eq!(b.distance(Color::White, 1), Ok(24));
    assert_eq!(b.distance(Color::White, 0), Ok(25));
    assert_eq!(b.distance(Color::Black, 24), Ok(24));
    assert_eq!(b.distance(Color::Black, 1), Ok(1));
    assert_eq!(b.distance(Color::Neither, 5), Err(BackgammonError::InvalidColor));
}

#[test]
fn from_distance_inverse() {
    let b = empty_board();
    for idx in 0..=25u8 {
        let d = b.distance(Color::White, idx).unwrap();
        assert_eq!(b.from_distance(Color::White, d), Ok(idx));
        let d = b.distance(Color::Black, idx).unwrap();
        assert_eq!(b.from_distance(Color::Black, d), Ok(idx));
    }
    assert_eq!(b.from_distance(Color::Neither, 3), Err(BackgammonError::InvalidColor));
}

#[test]
fn is_closed_rules() {
    let mut b = empty_board();
    place(&mut b, 5, Color::Black, 2);
    place(&mut b, 6, Color::Black, 1);
    assert_eq!(b.is_closed(Color::White, 5), Ok(true));
    assert_eq!(b.is_closed(Color::White, 6), Ok(false));
    assert_eq!(b.is_closed(Color::Black, 5), Ok(false));
    assert_eq!(b.is_closed(Color::White, 0), Err(BackgammonError::InvalidPoint));
    assert_eq!(b.is_closed(Color::White, 25), Err(BackgammonError::InvalidPoint));
    assert_eq!(b.is_closed(Color::Neither, 5), Err(BackgammonError::InvalidColor));
}

#[test]
fn bear_off_gate_outside_home() {
    let mut b = empty_board();
    place(&mut b, 22, Color::White, 1);
    place(&mut b, 10, Color::White, 1);
    // distance 3 <= 6 pips would bear off, but the checker on 10 is at
    // distance 15: the whole side is not home yet
    assert_eq!(b.farthest(Color::White), Ok(15));
    let mv = Move { start: 22, steps: 6 };
    assert_eq!(b.is_valid_move(Color::White, mv, false), Ok(false));
    let before = b;
    assert_eq!(b.apply_move(Color::White, mv, false), Err(BackgammonError::InvalidMove));
    assert_eq!(b, before);
}

#[test]
fn bear_off_requires_exact_or_farthest() {
    let mut b = empty_board();
    place(&mut b, 20, Color::White, 1);
    place(&mut b, 22, Color::White, 2);
    assert_eq!(b.farthest(Color::White), Ok(5));
    // exact die from distance 3
    assert_eq!(b.is_valid_move(Color::White, Move { start: 22, steps: 3 }, false), Ok(true));
    // overage from a checker that is not the farthest
    assert_eq!(b.is_valid_move(Color::White, Move { start: 22, steps: 5 }, false), Ok(false));
    // overage from the farthest checker
    assert_eq!(b.is_valid_move(Color::White, Move { start: 20, steps: 6 }, false), Ok(true));
    let mut b2 = b;
    assert_eq!(b2.apply_move(Color::White, Move { start: 22, steps: 3 }, false), Ok(true));
    assert_eq!(b2.borne[0], 1);
    assert_eq!(b2.points[22], Point { color: Color::White, n_pieces: 1 });
}

#[test]
fn hit_relocates_lone_checker() {
    let mut b = empty_board();
    place(&mut b, 20, Color::White, 1);
    place(&mut b, 24, Color::Black, 1);
    assert_eq!(b.apply_move(Color::White, Move { start: 20, steps: 4 }, false), Ok(true));
    assert_eq!(b.points[24], Point { color: Color::White, n_pieces: 1 });
    assert_eq!(b.points[25], Point { color: Color::Black, n_pieces: 1 });
    assert_eq!(b.points[20], Point { color: Color::Neither, n_pieces: 0 });
    assert_eq!(checkers(&b, Color::White), 1);
    assert_eq!(checkers(&b, Color::Black), 1);
}

#[test]
fn blocked_point_rejects_move() {
    let mut b = empty_board();
    place(&mut b, 20, Color::White, 1);
    place(&mut b, 24, Color::Black, 2);
    let mv = Move { start: 20, steps: 4 };
    assert_eq!(b.is_valid_move(Color::White, mv, false), Ok(false));
    let before = b;
    assert_eq!(b.apply_move(Color::White, mv, false), Err(BackgammonError::InvalidMove));
    assert_eq!(b, before);
}

#[test]
fn apply_move_conserves_checkers() {
    let mut b = empty_board();
    place(&mut b, 12, Color::White, 5);
    place(&mut b, 8, Color::Black, 3);
    place(&mut b, 15, Color::Black, 1);
    let w = checkers(&b, Color::White);
    let bl = checkers(&b, Color::Black);
    // a plain move
    assert_eq!(b.apply_move(Color::White, Move { start: 12, steps: 2 }, false), Ok(true));
    // a hit
    assert_eq!(b.apply_move(Color::White, Move { start: 14, steps: 1 }, false), Ok(true));
    assert_eq!(checkers(&b, Color::White), w);
    assert_eq!(checkers(&b, Color::Black), bl);
    assert_eq!(b.points[25], Point { color: Color::Black, n_pieces: 1 });
}

#[test]
fn farthest_scans_from_the_rear() {
    let mut b = empty_board();
    assert_eq!(b.farthest(Color::White), Ok(0));
    place(&mut b, 1, Color::White, 2);
    place(&mut b, 19, Color::White, 5);
    place(&mut b, 24, Color::Black, 2);
    place(&mut b, 6, Color::Black, 5);
    assert_eq!(b.farthest(Color::White), Ok(24));
    assert_eq!(b.farthest(Color::Black), Ok(24));
    assert_eq!(b.farthest(Color::Neither), Err(BackgammonError::InvalidColor));
}

#[test]
fn bar_entry_takes_precedence() {
    let mut b = empty_board();
    place(&mut b, 0, Color::White, 1);
    place(&mut b, 12, Color::White, 5);
    place(&mut b, 3, Color::Black, 2);
    // die 3 enters from the bar onto point 3, which is closed; the free move
    // from 12 does not count while a checker waits on the bar
    assert_eq!(b.has_move_for_die(Color::White, 3), Ok(false));
    // die 4 enters onto the open point 4
    assert_eq!(b.has_move_for_die(Color::White, 4), Ok(true));
}

#[test]
fn has_checker_queries() {
    let mut b = empty_board();
    place(&mut b, 25, Color::Black, 2);
    assert_eq!(b.has_checker_on_bar(Color::Black), Ok(true));
    assert_eq!(b.has_checker_on_bar(Color::White), Ok(false));
    assert_eq!(b.has_checker_on_point(Color::Black, 25), Ok(true));
    assert_eq!(b.has_checker_on_point(Color::White, 25), Ok(false));
    assert_eq!(
        b.has_checker_on_bar(Color::Neither),
        Err(BackgammonError::InvalidColor)
    );
}

#[test]
fn hit_sends_checker_to_its_bar() {
    let mut b = empty_board();
    place(&mut b, 7, Color::Black, 1);
    assert_eq!(b.hit(7), Ok(()));
    assert_eq!(b.points[7], Point { color: Color::Neither, n_pieces: 0 });
    assert_eq!(b.points[25], Point { color: Color::Black, n_pieces: 1 });
    assert_eq!(b.hit(3), Err(BackgammonError::InvalidColor));
}

#[test]
fn color_helpers() {
    assert_eq!(Color::White.opponent(), Ok(Color::Black));
    assert_eq!(Color::Black.opponent(), Ok(Color::White));
    assert_eq!(Color::Neither.opponent(), Err(BackgammonError::InvalidColor));
    assert_eq!(Color::White.index(), Ok(0));
    assert_eq!(Color::Black.index(), Ok(1));
    assert_eq!(Color::Neither.index(), Err(BackgammonError::InvalidColor));
    assert_eq!(Color::sign(Color::White), 1);
    assert_eq!(Color::sign(Color::Black), -1);
    assert_eq!(Color::sign(Color::Neither), 0);
    assert_eq!(Color::White.get_bar_index(), Ok(0));
    assert_eq!(Color::Black.get_bar_index(), Ok(25));
    assert_eq!(Color::Neither.get_bar_index(), Err(BackgammonError::InvalidColor));
    assert_eq!(Color::middle_point_index(Color::White), 0);
    assert_eq!(Color::middle_point_index(Color::Black), 25);
    assert_eq!(Color::middle_point_index(Color::Neither), 13);
    assert_eq!(Color::White.to_string(), "White");
    assert_eq!(Color::Black.to_string(), "Black");
    assert_eq!(Color::Neither.to_string(), "None");
    assert_eq!(Color::default(), Color::Neither);
}
