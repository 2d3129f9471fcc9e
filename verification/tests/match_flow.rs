//! Match-level flow: the opening roll, the doubling cube, move batches, the
//! legal-move counter, and the engine's typed failures.

use backgammon::board::{Board, Move, Point};
use backgammon::color::Color;
use backgammon::error::BackgammonError;
use backgammon::game::{Game, GameState, RandomDice, ScriptedDice};

const WHITE_ID: [u8; 32] = [1; 32];
const BLACK_ID: [u8; 32] = [2; 32];

fn dice(values: &[u8]) -> ScriptedDice {
    ScriptedDice::new(values.to_vec())
}

fn mv(start: u8, steps: u8) -> Move {
    Move { start, steps }
}

fn no_moves() -> [Move; 4] {
    [mv(0, 0); 4]
}

fn checkers(board: &Board, color: Color) -> u32 {
    let mut total: u32 = board.borne[if color == Color::White { 0 } else { 1 }] as u32;
    for p in board.points.iter() {
        if p.color == color {
            total += p.n_pieces as u32;
        }
    }
    total
}

/// A fresh match taken through the opening roll: White contributes 3, Black
/// 5, so Black starts with dice [3, 5].
fn black_to_move() -> Game {
    let mut g = Game::init(WHITE_ID, BLACK_ID, 7);
    assert_eq!(g.roll_dice(Color::White, &mut dice(&[3])), Ok(()));
    assert_eq!(g.roll_dice(Color::Black, &mut dice(&[5])), Ok(()));
    g
}

/// Black plays its opening roll, leaving White to double or roll.
fn white_to_double_or_roll() -> Game {
    let mut g = black_to_move();
    let moves = [mv(24, 3), mv(13, 5), mv(0, 0), mv(0, 0)];
    assert_eq!(g.apply_moves(Color::Black, moves, &mut dice(&[])), Ok(()));
    assert_eq!(g.state, GameState::DoubleOrRoll);
    assert_eq!(g.turn, Color::White);
    g
}

#[test]
fn opening_roll_decides_turn() {
    let g = black_to_move();
    assert_eq!(g.state, GameState::Rolled);
    assert_eq!(g.turn, Color::Black);
    assert_eq!(g.dice, [3, 5]);
    assert!(g.max_moves >= 1);
}

#[test]
fn opening_tie_resets_both_dice() {
    let mut g = Game::init(WHITE_ID, BLACK_ID, 7);
    assert_eq!(g.roll_dice(Color::White, &mut dice(&[4])), Ok(()));
    assert_eq!(g.roll_dice(Color::Black, &mut dice(&[4])), Ok(()));
    assert_eq!(g.state, GameState::Started);
    assert_eq!(g.dice, [0, 0]);
    // both sides may contribute again after a tie
    assert_eq!(g.roll_dice(Color::White, &mut dice(&[2])), Ok(()));
    assert_eq!(g.dice, [2, 0]);
}

#[test]
fn opening_slot_cannot_be_rerolled() {
    let mut g = Game::init(WHITE_ID, BLACK_ID, 7);
    assert_eq!(g.roll_dice(Color::White, &mut dice(&[3])), Ok(()));
    let before = g.clone();
    assert_eq!(
        g.roll_dice(Color::White, &mut dice(&[5])),
        Err(BackgammonError::InvalidState)
    );
    assert_eq!(g, before);
    assert_eq!(
        g.roll_dice(Color::Neither, &mut dice(&[5])),
        Err(BackgammonError::InvalidColor)
    );
}

#[test]
fn double_rejected_finishes_match() {
    let mut g = white_to_double_or_roll();
    assert_eq!(g.multiplier, 1);
    assert!(g.can_double(Color::White));
    assert_eq!(g.request_double(Color::White), Ok(()));
    assert_eq!(g.state, GameState::Doubled);
    assert_eq!(g.respond_to_double(Color::Black, false, &mut dice(&[])), Ok(()));
    assert_eq!(g.winner, Color::White);
    assert_eq!(g.state, GameState::Finished);
    assert_eq!(g.multiplier, 1);
}

#[test]
fn double_accepted_doubles_cube() {
    let mut g = white_to_double_or_roll();
    assert_eq!(g.request_double(Color::White), Ok(()));
    assert_eq!(g.respond_to_double(Color::Black, true, &mut dice(&[2, 4])), Ok(()));
    assert_eq!(g.multiplier, 2);
    assert_eq!(g.last_doubled, Color::White);
    assert_eq!(g.turn, Color::Black);
    assert_eq!(g.state, GameState::Rolled);
    assert_eq!(g.dice, [2, 4]);
}

#[test]
fn doubler_may_not_answer_its_own_double() {
    let mut g = white_to_double_or_roll();
    assert_eq!(g.request_double(Color::White), Ok(()));
    let before = g.clone();
    assert_eq!(
        g.respond_to_double(Color::White, true, &mut dice(&[2, 4])),
        Err(BackgammonError::UnauthorizedAction)
    );
    assert_eq!(g, before);
}

#[test]
fn auto_roll_when_opponent_doubled_last() {
    let mut g = white_to_double_or_roll();
    assert_eq!(g.request_double(Color::White), Ok(()));
    assert_eq!(g.respond_to_double(Color::Black, true, &mut dice(&[2, 4])), Ok(()));
    // Black plays; the turn would pass to White, who doubled last and so may
    // not double again: the engine rolls for White at once
    let moves = [mv(24, 2), mv(13, 4), mv(0, 0), mv(0, 0)];
    assert_eq!(g.apply_moves(Color::Black, moves, &mut dice(&[3, 1])), Ok(()));
    assert_eq!(g.turn, Color::White);
    assert_eq!(g.state, GameState::Rolled);
    assert_eq!(g.dice, [3, 1]);
}

#[test]
fn doubles_count_capped_by_placements() {
    // White's farthest checker is at distance 3 and everything is home, but
    // only three checkers remain on the board: a double 6 yields 3 plays
    let mut board = Board {
        points: [Point { color: Color::Neither, n_pieces: 0 }; 26],
        borne: [12, 0],
    };
    board.points[22] = Point { color: Color::White, n_pieces: 1 };
    board.points[24] = Point { color: Color::White, n_pieces: 2 };
    board.points[1] = Point { color: Color::Black, n_pieces: 15 };
    let mut g = Game {
        game_id: 7,
        state: GameState::Rolled,
        white_identity: WHITE_ID,
        black_identity: BLACK_ID,
        turn: Color::White,
        winner: Color::Neither,
        dice: [6, 6],
        multiplier: 1,
        last_moves: no_moves(),
        last_doubled: Color::Neither,
        board,
        max_moves: 0,
        first_moves: Vec::new(),
    };
    assert_eq!(g.calc_max_moves(), Ok(()));
    assert_eq!(g.max_moves, 3);
}

#[test]
fn sentinel_stops_batch_early() {
    let mut g = white_to_double_or_roll();
    assert_eq!(g.skip_double(Color::White, &mut dice(&[6, 6])), Ok(()));
    assert_eq!(g.state, GameState::Rolled);
    assert_eq!(g.dice, [6, 6]);
    // four plays are available, but the sentinel at index 2 passes on the
    // rest; only the first two moves reach the board
    let moves = [mv(12, 6), mv(12, 6), mv(0, 0), mv(24, 6)];
    assert_eq!(g.apply_moves(Color::White, moves, &mut dice(&[])), Ok(()));
    assert_eq!(g.board.points[12], Point { color: Color::White, n_pieces: 3 });
    assert_eq!(g.board.points[18], Point { color: Color::White, n_pieces: 2 });
    assert_eq!(g.state, GameState::DoubleOrRoll);
    assert_eq!(g.turn, Color::Black);
    assert_eq!(g.dice, [0, 0]);
}

#[test]
fn illegal_batch_leaves_game_unchanged() {
    let mut g = white_to_double_or_roll();
    assert_eq!(g.skip_double(Color::White, &mut dice(&[6, 6])), Ok(()));
    let before = g.clone();
    // the first move is legal, the second spends a die value that the roll
    // does not offer: nothing of the batch may stick
    let moves = [mv(12, 6), mv(12, 3), mv(0, 0), mv(0, 0)];
    assert_eq!(
        g.apply_moves(Color::White, moves, &mut dice(&[])),
        Err(BackgammonError::InvalidMove)
    );
    assert_eq!(g, before);
    // likewise when the board rejects the second move
    let moves = [mv(12, 6), mv(8, 6), mv(0, 0), mv(0, 0)];
    assert_eq!(
        g.apply_moves(Color::White, moves, &mut dice(&[])),
        Err(BackgammonError::InvalidMove)
    );
    assert_eq!(g, before);
}

#[test]
fn wrong_turn_and_state_errors() {
    let mut g = black_to_move();
    let before = g.clone();
    assert_eq!(
        g.apply_moves(Color::White, no_moves(), &mut dice(&[])),
        Err(BackgammonError::UnauthorizedAction)
    );
    assert_eq!(
        g.roll_dice(Color::White, &mut dice(&[1, 2])),
        Err(BackgammonError::UnauthorizedAction)
    );
    assert_eq!(g.request_double(Color::Black), Err(BackgammonError::InvalidState));
    assert_eq!(
        g.skip_double(Color::Black, &mut dice(&[1, 2])),
        Err(BackgammonError::InvalidState)
    );
    assert_eq!(
        g.respond_to_double(Color::White, true, &mut dice(&[])),
        Err(BackgammonError::InvalidState)
    );
    assert_eq!(g, before);
    let mut fresh = Game::init(WHITE_ID, BLACK_ID, 7);
    assert_eq!(
        fresh.apply_moves(Color::White, no_moves(), &mut dice(&[])),
        Err(BackgammonError::InvalidState)
    );
}

#[test]
fn cube_capped_at_sixty_four() {
    let mut g = white_to_double_or_roll();
    g.multiplier = 64;
    assert!(!g.can_double(Color::White));
    assert_eq!(g.request_double(Color::White), Err(BackgammonError::InvalidState));
    g.multiplier = 32;
    assert!(g.can_double(Color::White));
}

#[test]
fn last_doubler_cannot_double_again() {
    let mut g = white_to_double_or_roll();
    g.last_doubled = Color::White;
    assert!(!g.can_double(Color::White));
    g.last_doubled = Color::Black;
    assert!(g.can_double(Color::White));
}

#[test]
fn conservation_through_play() {
    let mut g = black_to_move();
    assert_eq!(checkers(&g.board, Color::White), 15);
    assert_eq!(checkers(&g.board, Color::Black), 15);
    let moves = [mv(24, 3), mv(13, 5), mv(0, 0), mv(0, 0)];
    assert_eq!(g.apply_moves(Color::Black, moves, &mut dice(&[])), Ok(()));
    assert_eq!(checkers(&g.board, Color::White), 15);
    assert_eq!(checkers(&g.board, Color::Black), 15);
    assert_eq!(g.skip_double(Color::White, &mut dice(&[6, 5])), Ok(()));
    let moves = [mv(1, 6), mv(12, 5), mv(0, 0), mv(0, 0)];
    assert_eq!(g.apply_moves(Color::White, moves, &mut dice(&[])), Ok(()));
    assert_eq!(checkers(&g.board, Color::White), 15);
    assert_eq!(checkers(&g.board, Color::Black), 15);
}

#[test]
fn init_sets_standard_layout() {
    let g = Game::init(WHITE_ID, BLACK_ID, 42);
    assert_eq!(g.game_id, 42);
    assert_eq!(g.state, GameState::Started);
    assert_eq!(g.multiplier, 1);
    assert_eq!(g.turn, Color::Neither);
    assert_eq!(g.winner, Color::Neither);
    assert_eq!(g.dice, [0, 0]);
    assert!(g.is_initialized());
    for (idx, n) in [(1u8, 2u8), (12, 5), (17, 3), (19, 5)] {
        assert_eq!(
            g.board.points[idx as usize],
            Point { color: Color::White, n_pieces: n }
        );
        assert_eq!(
            g.board.points[25 - idx as usize],
            Point { color: Color::Black, n_pieces: n }
        );
    }
    assert_eq!(checkers(&g.board, Color::White), 15);
    assert_eq!(checkers(&g.board, Color::Black), 15);
}

#[test]
fn get_color_resolves_identities() {
    let g = Game::init(WHITE_ID, BLACK_ID, 7);
    assert_eq!(g.get_color(&WHITE_ID), Color::White);
    assert_eq!(g.get_color(&BLACK_ID), Color::Black);
    assert_eq!(g.get_color(&[9; 32]), Color::Neither);
}

#[test]
fn bearing_off_the_last_checker_wins() {
    let mut board = Board {
        points: [Point { color: Color::Neither, n_pieces: 0 }; 26],
        borne: [14, 0],
    };
    board.points[24] = Point { color: Color::White, n_pieces: 1 };
    board.points[1] = Point { color: Color::Black, n_pieces: 15 };
    let mut g = Game {
        game_id: 7,
        state: GameState::Rolled,
        white_identity: WHITE_ID,
        black_identity: BLACK_ID,
        turn: Color::White,
        winner: Color::Neither,
        dice: [1, 2],
        multiplier: 1,
        last_moves: no_moves(),
        last_doubled: Color::Neither,
        board,
        max_moves: 0,
        first_moves: Vec::new(),
    };
    let moves = [mv(24, 1), mv(0, 0), mv(0, 0), mv(0, 0)];
    assert_eq!(g.apply_moves(Color::White, moves, &mut dice(&[])), Ok(()));
    assert_eq!(g.state, GameState::Finished);
    assert_eq!(g.winner, Color::White);
    assert_eq!(g.board.borne[0], 15);
}

#[test]
fn scripted_dice_replay_and_clamp() {
    let mut d = ScriptedDice::new(vec![3, 9, 0, 6]);
    assert_eq!(d.generate(), 3);
    assert_eq!(d.generate(), 1);
    assert_eq!(d.generate(), 1);
    assert_eq!(d.generate(), 6);
    assert_eq!(d.generate(), 1);
    assert_eq!(d.generate(), 1);
}

#[test]
fn first_moves_keep_the_other_die_playable() {
    let mut board = Board {
        points: [Point { color: Color::Neither, n_pieces: 0 }; 26],
        borne: [14, 13],
    };
    board.points[12] = Point { color: Color::White, n_pieces: 1 };
    board.points[20] = Point { color: Color::Black, n_pieces: 2 };
    let mut g = Game {
        game_id: 7,
        state: GameState::Rolled,
        white_identity: WHITE_ID,
        black_identity: BLACK_ID,
        turn: Color::White,
        winner: Color::Neither,
        dice: [2, 3],
        multiplier: 1,
        last_moves: no_moves(),
        last_doubled: Color::Neither,
        board,
        max_moves: 0,
        first_moves: Vec::new(),
    };
    assert_eq!(g.calc_max_moves(), Ok(()));
    // either opening half-move leaves the other die a continuation
    assert_eq!(g.max_moves, 2);
    assert_eq!(g.first_moves, vec![mv(12, 2), mv(12, 3)]);
}

#[test]
fn max_moves_one_when_second_die_is_blocked() {
    let mut board = Board {
        points: [Point { color: Color::Neither, n_pieces: 0 }; 26],
        borne: [14, 11],
    };
    board.points[12] = Point { color: Color::White, n_pieces: 1 };
    // die 3 is blocked everywhere: from 12 directly, and from 14 after the
    // only legal die-2 move
    board.points[15] = Point { color: Color::Black, n_pieces: 2 };
    board.points[17] = Point { color: Color::Black, n_pieces: 2 };
    let mut g = Game {
        game_id: 7,
        state: GameState::Rolled,
        white_identity: WHITE_ID,
        black_identity: BLACK_ID,
        turn: Color::White,
        winner: Color::Neither,
        dice: [2, 3],
        multiplier: 1,
        last_moves: no_moves(),
        last_doubled: Color::Neither,
        board,
        max_moves: 0,
        first_moves: Vec::new(),
    };
    assert_eq!(g.calc_max_moves(), Ok(()));
    assert_eq!(g.max_moves, 1);
    assert!(g.first_moves.is_empty());
}

#[test]
fn max_moves_zero_when_everything_is_blocked() {
    let mut board = Board {
        points: [Point { color: Color::Neither, n_pieces: 0 }; 26],
        borne: [14, 11],
    };
    board.points[12] = Point { color: Color::White, n_pieces: 1 };
    board.points[14] = Point { color: Color::Black, n_pieces: 2 };
    board.points[15] = Point { color: Color::Black, n_pieces: 2 };
    let mut g = Game {
        game_id: 7,
        state: GameState::Rolled,
        white_identity: WHITE_ID,
        black_identity: BLACK_ID,
        turn: Color::White,
        winner: Color::Neither,
        dice: [2, 3],
        multiplier: 1,
        last_moves: no_moves(),
        last_doubled: Color::Neither,
        board,
        max_moves: 0,
        first_moves: Vec::new(),
    };
    assert_eq!(g.calc_max_moves(), Ok(()));
    assert_eq!(g.max_moves, 0);
    assert!(g.first_moves.is_empty());
}
